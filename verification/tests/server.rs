use arcjet::digest::Digest;
use arcjet::error::StoreError;
use arcjet::server::{new, Server};

const HELLO: &str = "9b71d224bd62f3785d96d46ad3ea3d73319bfbc2890caadae2dff72519673ca72323c3d99ba5c11d7c7acc6e14b8c5da0c4663475c2e5c3adef46f73bcdec043";

#[test]
fn store_of_a_home_lies_in_its_arcjet_directory() {
    let server = Server::under(String::from("/home/user"));
    assert_eq!(server.blobs.address_space().root_dir(), "/home/user/.arcjet");
    assert_eq!(
        server.blobs.address_space().resolve(HELLO),
        Ok(format!("/home/user/.arcjet/{}", HELLO))
    );
}

#[test]
fn store_for_a_known_home_lies_in_its_arcjet_directory() {
    let server = Server::for_home(Some(String::from("/home/user"))).unwrap();
    assert_eq!(server.blobs.address_space().root_dir(), "/home/user/.arcjet");
    assert_eq!(server.get(HELLO), None);
    let server = Server::for_home(Some(String::new())).unwrap();
    assert_eq!(server.blobs.address_space().root_dir(), "/.arcjet");
}

#[test]
fn store_for_an_unknown_home_is_none() {
    assert!(Server::for_home(None).is_none());
}

#[test]
fn store_at_a_root_is_empty() {
    let server = Server::at(String::from("/srv/objects"));
    assert_eq!(server.blobs.address_space().root_dir(), "/srv/objects");
    assert_eq!(server.get(HELLO), None);
}

#[test]
fn new_store_is_rooted_under_the_home_directory() {
    if let Some(server) = new() {
        let root = server.blobs.address_space().root_dir().clone();
        assert!(root.ends_with("/.arcjet"));
        assert!(root.len() > "/.arcjet".len());
        assert_eq!(server.get(HELLO), None);
        }
}

#[test]
fn set_returns_the_digest_and_get_returns_the_bytes() {
    let mut server = Server::at(String::from("/srv/objects"));
    let name = server.set(&vec![b"hello".to_vec()]);
    assert_eq!(name, Ok(String::from(HELLO)));
    assert_eq!(server.get(HELLO), Some(&b"hello".to_vec()));
}

#[test]
fn set_of_the_same_body_twice_returns_the_same_digest() {
    let mut server = Server::at(String::from("/srv/objects"));
    let first = server.set(&vec![b"hello".to_vec()]);
    let second = server.set(&vec![b"he".to_vec(), Vec::new(), b"llo".to_vec()]);
    assert_eq!(first, Ok(String::from(HELLO)));
    assert_eq!(second, Ok(String::from(HELLO)));
    assert_eq!(server.get(HELLO), Some(&b"hello".to_vec()));
}

#[test]
fn set_of_an_empty_body_stores_the_empty_blob() {
    let mut server = Server::at(String::from("/srv/objects"));
    let name = server.set(&Vec::new()).unwrap();
    assert_eq!(name, Digest::of(b"").name());
    assert_eq!(server.get(&name), Some(&Vec::new()));
}

#[test]
fn set_at_reports_a_token_that_cannot_be_used() {
    let mut server = Server::at(String::from("/srv/objects"));
    let body = vec![b"hello".to_vec()];
    assert_eq!(server.set_at(String::from("a/b"), &body), Err(StoreError::InvalidName));
    assert_eq!(server.set_at(String::from(HELLO), &body), Err(StoreError::InvalidName));
    assert_eq!(server.get(HELLO), None);
    let held = server.blobs.begin_write_at(String::from("busy")).unwrap();
    assert_eq!(server.set_at(String::from("busy"), &body), Err(StoreError::StorageIo));
    assert_eq!(server.get(HELLO), None);
    server.blobs.abort(held);
    assert_eq!(server.set_at(String::from("busy"), &body), Ok(String::from(HELLO)));
    assert_eq!(server.set_at(String::from("busy"), &body), Ok(String::from(HELLO)));
    assert_eq!(server.get(HELLO), Some(&b"hello".to_vec()));
}

#[test]
fn get_of_a_digest_never_committed_is_none() {
    let mut server = Server::at(String::from("/srv/objects"));
    assert_eq!(server.get(HELLO), None);
    server.set(&vec![b"hello world".to_vec()]).unwrap();
    assert_eq!(server.get(HELLO), None);
    assert_eq!(server.get(""), None);
    assert_eq!(server.get("../../etc/passwd"), None);
}

#[test]
fn set_succeeds_where_no_staging_token_has_36_characters() {
    let mut server = Server::at(String::from("/srv/objects"));
    let held = server.blobs.begin_write_at(String::from("upload-1")).unwrap();
    assert_eq!(server.set(&vec![b"hel".to_vec(), b"lo".to_vec()]), Ok(String::from(HELLO)));
    assert_eq!(server.set(&vec![b"hello".to_vec()]), Ok(String::from(HELLO)));
    assert_eq!(server.get(HELLO), Some(&b"hello".to_vec()));
    assert!(server.blobs.begin_write().is_ok());
    server.blobs.abort(held);
}
