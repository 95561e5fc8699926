use arcjet::address::AddressSpace;
use arcjet::blob::{BlobStore, StorageAction};
use arcjet::digest::from_hex;
use arcjet::error::StoreError;

const HELLO: &str = "9b71d224bd62f3785d96d46ad3ea3d73319bfbc2890caadae2dff72519673ca72323c3d99ba5c11d7c7acc6e14b8c5da0c4663475c2e5c3adef46f73bcdec043";
const HELLO_WORLD: &str = "309ecc489c12d6eb4cc40f50c902f2b4d0ed77ee511a7c7a9bcd3ca86d4cd86f989dd35bc5ff499670da34255b45b0cfd830e81f605dcf7dc5542e93ae9cd76f";

fn store() -> BlobStore {
    BlobStore::new(AddressSpace::new(String::from("/srv/objects")))
}

fn upload(store: &mut BlobStore, token: &str, content: &[u8]) -> Vec<StorageAction> {
    let handle = store.begin_write_at(String::from(token)).unwrap();
    store.write(&handle, content).unwrap();
    store.commit(handle).unwrap();
    store.drain()
}

fn promote(from: &str, to: &str) -> StorageAction {
    StorageAction::Promote { from: String::from(from), to: String::from(to) }
}

fn discard(name: &str) -> StorageAction {
    StorageAction::Discard { name: String::from(name) }
}

#[test]
fn failed_relocation_is_a_storage_error_and_is_taken_back() {
    let mut store = store();
    let actions = upload(&mut store, "t-1", b"hello");
    assert_eq!(actions[2], promote("t-1", HELLO));
    assert_eq!(store.read(HELLO), Ok(&b"hello".to_vec()));
    assert_eq!(store.fail(&actions[2]), StoreError::StorageIo);
    assert_eq!(store.read(HELLO), Err(StoreError::NotFound));
    assert!(!store.contains(HELLO));
    assert_eq!(store.drain(), vec![discard("t-1")]);
}

#[test]
fn failed_relocation_leaves_earlier_objects_intact() {
    let mut store = store();
    upload(&mut store, "t-1", b"hello world");
    let actions = upload(&mut store, "t-2", b"hello");
    assert_eq!(store.fail(&actions[2]), StoreError::StorageIo);
    assert_eq!(store.read(HELLO_WORLD), Ok(&b"hello world".to_vec()));
    assert_eq!(store.read(HELLO), Err(StoreError::NotFound));
}

#[test]
fn upload_can_be_tried_again_after_a_failed_relocation() {
    let mut store = store();
    let actions = upload(&mut store, "t-1", b"hello");
    store.fail(&actions[2]);
    assert_eq!(store.drain(), vec![discard("t-1")]);
    let again = upload(&mut store, "t-1", b"hello");
    assert_eq!(again[2], promote("t-1", HELLO));
    assert_eq!(store.read(HELLO), Ok(&b"hello".to_vec()));
}

#[test]
fn failed_removal_after_a_duplicate_upload_changes_nothing() {
    let mut store = store();
    upload(&mut store, "t-1", b"hello");
    let actions = upload(&mut store, "t-2", b"hello");
    assert_eq!(actions[2], discard("t-2"));
    assert_eq!(store.fail(&actions[2]), StoreError::StorageIo);
    assert_eq!(store.read(HELLO), Ok(&b"hello".to_vec()));
    assert_eq!(store.drain(), Vec::new());
}

#[test]
fn failed_write_aborts_the_upload() {
    let mut store = store();
    let handle = store.begin_write_at(String::from("t-1")).unwrap();
    store.drain();
    store.write(&handle, b"hel").unwrap();
    let actions = store.drain();
    assert_eq!(store.fail(&actions[0]), StoreError::StorageIo);
    assert_eq!(store.write(&handle, b"lo"), Err(StoreError::StorageIo));
    assert_eq!(store.commit(handle).err(), Some(StoreError::StorageIo));
    assert_eq!(store.drain(), vec![discard("t-1")]);
}

#[test]
fn failed_creation_aborts_the_upload() {
    let mut store = store();
    let handle = store.begin_write_at(String::from("t-1")).unwrap();
    let actions = store.drain();
    assert_eq!(store.fail(&actions[0]), StoreError::StorageIo);
    assert_eq!(store.write(&handle, b"hello"), Err(StoreError::StorageIo));
    assert_eq!(store.drain(), vec![discard("t-1")]);
}

#[test]
fn upload_whose_actions_all_failed_leaves_one_removal() {
    let mut store = store();
    let actions = upload(&mut store, "t-1", b"hello");
    for action in &actions {
        assert_eq!(store.fail(action), StoreError::StorageIo);
    }
    assert_eq!(store.read(HELLO), Err(StoreError::NotFound));
    assert_eq!(store.drain(), vec![discard("t-1")]);
}

#[test]
fn relocation_is_not_taken_back_where_nothing_is_committed() {
    let mut store = store();
    upload(&mut store, "t-1", b"hello world");
    assert_eq!(store.fail(&promote("t-9", HELLO)), StoreError::StorageIo);
    assert_eq!(store.read(HELLO_WORLD), Ok(&b"hello world".to_vec()));
    assert_eq!(store.drain(), Vec::new());
}

#[test]
fn relocation_is_not_taken_back_while_it_is_pending() {
    let mut store = store();
    let handle = store.begin_write_at(String::from("t-1")).unwrap();
    store.write(&handle, b"hello").unwrap();
    store.commit(handle).unwrap();
    assert_eq!(store.fail(&promote("t-1", HELLO)), StoreError::StorageIo);
    assert_eq!(store.read(HELLO), Ok(&b"hello".to_vec()));
    assert_eq!(store.drain().len(), 3);
}

#[test]
fn failed_relocation_does_not_remove_a_token_in_use() {
    let mut store = store();
    let actions = upload(&mut store, "t-1", b"hello");
    let held = store.begin_write_at(String::from("t-1")).unwrap();
    store.drain();
    assert_eq!(store.fail(&actions[2]), StoreError::StorageIo);
    assert_eq!(store.read(HELLO), Err(StoreError::NotFound));
    assert_eq!(store.drain(), Vec::new());
    assert_eq!(store.write(&held, b"hello"), Ok(()));
}

#[test]
fn hexadecimal_text_is_read_as_bytes() {
    assert_eq!(from_hex(""), Some(Vec::new()));
    assert_eq!(from_hex("00ff"), Some(vec![0x00, 0xff]));
    assert_eq!(from_hex("0fa09b"), Some(vec![0x0f, 0xa0, 0x9b]));
    assert_eq!(from_hex(HELLO).map(|bytes| bytes.len()), Some(64));
}

#[test]
fn other_text_is_not_read_as_bytes() {
    assert_eq!(from_hex("0"), None);
    assert_eq!(from_hex("0fa"), None);
    assert_eq!(from_hex("0g"), None);
    assert_eq!(from_hex("0F"), None);
    assert_eq!(from_hex("0x00"), None);
    assert_eq!(from_hex(" 00"), None);
}
