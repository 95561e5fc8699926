use arcjet::address::AddressSpace;
use arcjet::blob::BlobStore;
use arcjet::digest::{has_digest_shape, Digest};
use arcjet::error::StoreError;

const HELLO: &str = "9b71d224bd62f3785d96d46ad3ea3d73319bfbc2890caadae2dff72519673ca72323c3d99ba5c11d7c7acc6e14b8c5da0c4663475c2e5c3adef46f73bcdec043";
const EMPTY: &str = "cf83e1357eefb8bdf1542850d66d8007d620e4050b5715dc83f4a921d36ce9ce47d0d13c5d85f2b0ff8318d2877eec2f63b931bd47417a81a538327af927da3e";

fn store() -> BlobStore {
    BlobStore::new(AddressSpace::new(String::from("/srv/objects")))
}

#[test]
fn digest_names_are_128_lowercase_hex_digits() {
    assert!(has_digest_shape(HELLO));
    assert!(has_digest_shape(EMPTY));
    assert!(has_digest_shape(&"0".repeat(128)));
    assert!(!has_digest_shape(""));
    assert!(!has_digest_shape(&HELLO[1..]));
    assert!(!has_digest_shape(&format!("{}0", HELLO)));
    assert!(!has_digest_shape(&HELLO.to_uppercase()));
    assert!(!has_digest_shape(&format!("{}g", &HELLO[1..])));
    assert!(!has_digest_shape(&format!("{}/", &HELLO[1..])));
    assert!(!has_digest_shape("0b5c7a2e-8d1f-4c3a-9e6b-2f7d4a1c8e90"));
}

#[test]
fn restore_takes_in_an_object_named_by_its_digest() {
    let mut store = store();
    assert_eq!(store.restore(HELLO, b"hello".to_vec()), Ok(()));
    assert_eq!(store.read(HELLO), Ok(&b"hello".to_vec()));
    assert_eq!(store.restore(EMPTY, Vec::new()), Ok(()));
    assert_eq!(store.read(EMPTY), Ok(&Vec::new()));
    assert_eq!(store.restore(HELLO, b"hello".to_vec()), Ok(()));
    assert_eq!(store.read(HELLO), Ok(&b"hello".to_vec()));
    assert_eq!(store.drain(), Vec::new());
}

#[test]
fn restore_refuses_content_of_another_digest() {
    let mut store = store();
    assert_eq!(store.restore(HELLO, b"hell".to_vec()), Err(StoreError::StorageIo));
    assert_eq!(store.restore(HELLO, Vec::new()), Err(StoreError::StorageIo));
    assert_eq!(store.restore(EMPTY, b"hello".to_vec()), Err(StoreError::StorageIo));
    assert_eq!(store.read(HELLO), Err(StoreError::NotFound));
    assert_eq!(store.read(EMPTY), Err(StoreError::NotFound));
    assert_eq!(store.drain(), Vec::new());
}

#[test]
fn restore_refuses_what_is_not_named_like_a_digest() {
    let mut store = store();
    let token = "0b5c7a2e-8d1f-4c3a-9e6b-2f7d4a1c8e90";
    assert_eq!(store.restore(token, b"hel".to_vec()), Err(StoreError::InvalidName));
    assert_eq!(store.restore("", Vec::new()), Err(StoreError::InvalidName));
    assert_eq!(store.restore("../x", Vec::new()), Err(StoreError::InvalidName));
    assert_eq!(
        store.restore(&HELLO.to_uppercase(), b"hello".to_vec()),
        Err(StoreError::InvalidName)
    );
    assert_eq!(store.read(HELLO), Err(StoreError::NotFound));
    assert!(store.begin_write_at(String::from(token)).is_ok());
}

#[test]
fn upload_of_restored_content_discards_its_staging_object() {
    let mut store = store();
    store.restore(HELLO, b"hello".to_vec()).unwrap();
    let handle = store.begin_write_at(String::from("t-1")).unwrap();
    store.write(&handle, b"hello").unwrap();
    assert_eq!(store.commit(handle).unwrap().name(), HELLO);
    let actions = store.drain();
    assert_eq!(actions.len(), 3);
    assert_eq!(
        actions[2],
        arcjet::blob::StorageAction::Discard { name: String::from("t-1") }
    );
    assert_eq!(store.read(HELLO), Ok(&b"hello".to_vec()));
}

#[test]
fn digest_is_read_back_from_its_name() {
    let digest = Digest::parse(HELLO).unwrap();
    assert!(digest.same(&Digest::of(b"hello")));
    assert_eq!(digest.name(), HELLO);
    let zero = Digest::parse(&"0".repeat(128)).unwrap();
    assert_eq!(zero.as_bytes(), &vec![0u8; 64]);
    let mixed = Digest::parse(&format!("0fa0{}9b", "c1".repeat(61))).unwrap();
    assert_eq!(mixed.as_bytes()[0], 0x0f);
    assert_eq!(mixed.as_bytes()[1], 0xa0);
    assert_eq!(mixed.as_bytes()[2], 0xc1);
    assert_eq!(mixed.as_bytes()[63], 0x9b);
}

#[test]
fn digest_is_not_read_from_other_text() {
    assert!(Digest::parse("").is_none());
    assert!(Digest::parse("9b71").is_none());
    assert!(Digest::parse(&HELLO[1..]).is_none());
    assert!(Digest::parse(&HELLO[2..]).is_none());
    assert!(Digest::parse(&format!("{}0", HELLO)).is_none());
    assert!(Digest::parse(&format!("{}00", HELLO)).is_none());
    assert!(Digest::parse(&HELLO.to_uppercase()).is_none());
    assert!(Digest::parse(&format!("{}g", &HELLO[1..])).is_none());
    assert!(Digest::parse(&format!("{} ", &HELLO[1..])).is_none());
    assert!(Digest::parse(&"\u{e9}".repeat(128)).is_none());
}
