use kv_store::error::KvError;
use kv_store::store::memory::ArcRwLockKvStore;
use kv_store::store::KvStore;
use kv_store::wal::writer::WalLog;

fn empty_store() -> ArcRwLockKvStore {
    ArcRwLockKvStore::new(WalLog::new(Vec::new(), &[]).unwrap())
}

fn encoded(offset: u64, key: &str, value: &str) -> Vec<u8> {
    format!("{offset}:{key}={value}").into_bytes()
}

fn put(store: &mut ArcRwLockKvStore, offset: u64, key: &str, value: &str) {
    assert_eq!(store.put(key, value, offset, &encoded(offset, key, value)), Ok(()));
}

fn delete(store: &mut ArcRwLockKvStore, offset: u64, key: &str) {
    assert_eq!(store.delete(key, offset, &encoded(offset, key, "")), Ok(()));
}

#[test]
fn get_after_put() {
    let mut store = empty_store();
    put(&mut store, 1, "a", "1");
    assert_eq!(store.get("a"), Some("1".to_string()));
    assert_eq!(store.get("b"), None);
}

#[test]
fn put_replaces() {
    let mut store = empty_store();
    put(&mut store, 1, "a", "1");
    put(&mut store, 2, "b", "2");
    put(&mut store, 3, "a", "3");
    assert_eq!(store.get("a"), Some("3".to_string()));
    assert_eq!(store.get("b"), Some("2".to_string()));
}

#[test]
fn get_after_delete() {
    let mut store = empty_store();
    put(&mut store, 1, "a", "1");
    put(&mut store, 2, "b", "2");
    delete(&mut store, 3, "a");
    assert_eq!(store.get("a"), None);
    assert_eq!(store.get("b"), Some("2".to_string()));
    delete(&mut store, 4, "zzz");
    assert_eq!(store.get("b"), Some("2".to_string()));
}

#[test]
fn put_and_delete_write_the_log_first() {
    let mut store = empty_store();
    put(&mut store, 1, "a", "1");
    assert_eq!(store.get_byte_pos(1), Some(&0));
    let scan = store.wal_log().get_entries(1).unwrap();
    assert_eq!(scan.frames.len(), 1);
    assert_eq!(scan.frames[0].payload, encoded(1, "a", "1"));
    let first_len = 8 + encoded(1, "a", "1").len();
    delete(&mut store, 2, "a");
    assert_eq!(store.get("a"), None);
    assert_eq!(store.get_byte_pos(2), Some(&(first_len as u64)));
    assert_eq!(store.wal_log().get_entries(2).unwrap().frames[0].payload, encoded(2, "a", ""));
}

#[test]
fn store_log_is_the_given_log() {
    let mut store = empty_store();
    store.append_to_log(4, b"entry");
    assert_eq!(store.get_byte_pos(4), Some(&0));
    assert_eq!(store.wal_log().len(), 13);
    assert_eq!(store.get("entry"), None);
}

#[test]
fn replace_log_keeps_the_data() {
    let mut store = empty_store();
    put(&mut store, 1, "a", "1");
    store.replace_log(WalLog::new(Vec::new(), &[]).unwrap());
    assert_eq!(store.wal_log().len(), 0);
    assert_eq!(store.get("a"), Some("1".to_string()));
    assert_eq!(store.get_byte_pos(1), None::<&u64>);
    let _ = KvError::NotFound;
}
