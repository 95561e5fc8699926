//! The error taxonomy of the store.
use vstd::prelude::*;

verus! {

/// Why a storage operation did not produce its result.
#[derive(Debug, Clone, Copy, PartialEq, Eq, Structural)]
pub enum StoreError {
    /// The underlying medium failed: a staging location was already occupied,
    /// or a staging object was no longer there.
    StorageIo,
    /// No object is committed at the requested address.
    NotFound,
    /// The name is empty or holds a path-traversal character.
    InvalidName,
}

/// Which of the two record invariants did not hold.
#[derive(Debug, Clone, Copy, PartialEq, Eq, Structural)]
pub enum VerificationError {
    /// The claimed metadata hash is not the digest of the canonical encoding.
    HashMismatch,
    /// The signature scheme did not accept the signature.
    SignatureInvalid,
}

impl StoreError {
    /// A short description for responses and logs.
    pub fn message(&self) -> (text: String)
        ensures
            text@ == match *self {
                StoreError::StorageIo => "storage i/o error"@,
                StoreError::NotFound => "not found"@,
                StoreError::InvalidName => "invalid name"@,
            },
    {
        match self {
            StoreError::StorageIo => String::from_str("storage i/o error"),
            StoreError::NotFound => String::from_str("not found"),
            StoreError::InvalidName => String::from_str("invalid name"),
        }
    }
}

impl VerificationError {
    /// The name of the failing invariant.
    pub fn message(&self) -> (text: String)
        ensures
            text@ == match *self {
                VerificationError::HashMismatch => "hash mismatch"@,
                VerificationError::SignatureInvalid => "signature invalid"@,
            },
    {
        match self {
            VerificationError::HashMismatch => String::from_str("hash mismatch"),
            VerificationError::SignatureInvalid => String::from_str("signature invalid"),
        }
    }
}

} // verus!
