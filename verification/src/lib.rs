//! A content-addressable object store with signed records.
//!
//! Blobs are staged under a random token, hashed with SHA-512 while they are
//! written, and promoted to the location named by the lowercase hexadecimal
//! digest of their content. A record binds metadata to a blob by the digest of
//! the metadata's canonical encoding and a signature over that digest.
pub mod address;
pub mod blob;
pub mod bytes;
pub mod digest;
pub mod error;
pub mod medium;
pub mod record;
pub mod server;
