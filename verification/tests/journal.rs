use arcjet::address::AddressSpace;
use arcjet::blob::{BlobStore, StorageAction};
use arcjet::error::StoreError;
use std::collections::BTreeMap;

const HELLO: &str = "9b71d224bd62f3785d96d46ad3ea3d73319bfbc2890caadae2dff72519673ca72323c3d99ba5c11d7c7acc6e14b8c5da0c4663475c2e5c3adef46f73bcdec043";

fn store() -> BlobStore {
    BlobStore::new(AddressSpace::new(String::from("/srv/objects")))
}

fn create(name: &str) -> StorageAction {
    StorageAction::Create { name: String::from(name) }
}

fn append(name: &str, bytes: &[u8]) -> StorageAction {
    StorageAction::Append { name: String::from(name), bytes: bytes.to_vec() }
}

fn promote(from: &str, to: &str) -> StorageAction {
    StorageAction::Promote { from: String::from(from), to: String::from(to) }
}

fn discard(name: &str) -> StorageAction {
    StorageAction::Discard { name: String::from(name) }
}

// A directory in memory that performs the actions as a file system would.
fn perform(disk: &mut BTreeMap<String, Vec<u8>>, actions: Vec<StorageAction>) {
    for action in actions {
        match action {
            StorageAction::Create { name } => {
                disk.insert(name, Vec::new());
            }
            StorageAction::Append { name, bytes } => {
                disk.get_mut(&name).unwrap().extend_from_slice(&bytes);
            }
            StorageAction::Promote { from, to } => {
                let content = disk.remove(&from).unwrap();
                disk.insert(to, content);
            }
            StorageAction::Discard { name } => {
                assert!(disk.remove(&name).is_some());
            }
        }
    }
}

#[test]
fn new_store_has_nothing_pending() {
    let mut store = store();
    assert_eq!(store.drain(), Vec::new());
}

#[test]
fn upload_is_create_append_promote() {
    let mut store = store();
    let handle = store.begin_write_at(String::from("t-1")).unwrap();
    store.write(&handle, b"hel").unwrap();
    store.write(&handle, b"lo").unwrap();
    store.commit(handle).unwrap();
    assert_eq!(
        store.drain(),
        vec![create("t-1"), append("t-1", b"hel"), append("t-1", b"lo"), promote("t-1", HELLO)]
    );
    assert_eq!(store.drain(), Vec::new());
    assert_eq!(store.read(HELLO), Ok(&b"hello".to_vec()));
}

#[test]
fn second_upload_of_the_same_content_discards_its_staging_object() {
    let mut store = store();
    let first = store.begin_write_at(String::from("t-1")).unwrap();
    store.write(&first, b"hello").unwrap();
    store.commit(first).unwrap();
    store.drain();
    let second = store.begin_write_at(String::from("t-2")).unwrap();
    store.write(&second, b"hello").unwrap();
    store.commit(second).unwrap();
    assert_eq!(store.drain(), vec![create("t-2"), append("t-2", b"hello"), discard("t-2")]);
}

#[test]
fn abort_discards_the_staging_object() {
    let mut store = store();
    let handle = store.begin_write_at(String::from("t-1")).unwrap();
    store.write(&handle, b"hello").unwrap();
    store.abort(handle);
    assert_eq!(store.drain(), vec![create("t-1"), append("t-1", b"hello"), discard("t-1")]);
}

#[test]
fn failed_steps_record_nothing() {
    let mut here = store();
    let mut there = store();
    let foreign = there.begin_write_at(String::from("t-9")).unwrap();
    assert_eq!(here.begin_write_at(String::from("a/b")).err(), Some(StoreError::InvalidName));
    assert_eq!(here.write(&foreign, b"x"), Err(StoreError::StorageIo));
    here.abort(foreign);
    assert_eq!(here.drain(), Vec::new());
    let held = here.begin_write_at(String::from("t-1")).unwrap();
    assert_eq!(here.begin_write_at(String::from("t-1")).err(), Some(StoreError::StorageIo));
    assert_eq!(here.drain(), vec![create("t-1")]);
    here.abort(held);
    assert_eq!(here.drain(), vec![discard("t-1")]);
}

#[test]
fn performed_actions_leave_the_committed_objects_on_the_medium() {
    let mut store = store();
    let mut disk: BTreeMap<String, Vec<u8>> = BTreeMap::new();
    let a = store.begin_write().unwrap();
    let b = store.begin_write().unwrap();
    let c = store.begin_write().unwrap();
    store.write(&a, b"hel").unwrap();
    store.write(&b, b"hello").unwrap();
    perform(&mut disk, store.drain());
    assert_eq!(disk.len(), 3);
    assert_eq!(disk.get(a.name()), Some(&b"hel".to_vec()));
    assert!(!disk.contains_key(HELLO));
    store.write(&a, b"lo").unwrap();
    store.write(&c, b"other").unwrap();
    let other = store.commit(c).unwrap().name();
    store.commit(a).unwrap();
    store.commit(b).unwrap();
    perform(&mut disk, store.drain());
    assert_eq!(disk.len(), 2);
    assert_eq!(disk.get(HELLO), Some(&b"hello".to_vec()));
    assert_eq!(disk.get(&other), Some(&b"other".to_vec()));
    for (name, content) in &disk {
        assert_eq!(store.read(name), Ok(content));
    }
}
