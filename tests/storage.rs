use zbackend_fs::config::{open_storage, StorageSettings};
use zbackend_fs::files::OnClosure;
use zbackend_fs::storage::{FileSystemStorage, Sample, SampleKind, StorageError, StorageInsertionResult};
use zbackend_fs::timestamp::Timestamp;

fn storage(read_only: bool) -> FileSystemStorage {
    open_storage(StorageSettings {
        read_only,
        follow_links: false,
        keep_mime: true,
        on_closure: OnClosure::DoNothing,
        base_dir: b"/tmp/zbackend_fs/test".to_vec(),
    })
}

fn put(key: &str, payload: &str, encoding: &str, time: u64) -> Sample {
    Sample {
        kind: SampleKind::Put,
        key: key.as_bytes().to_vec(),
        payload: payload.as_bytes().to_vec(),
        encoding: encoding.as_bytes().to_vec(),
        timestamp: Timestamp::new(time, 1),
    }
}

fn delete(key: &str, time: u64) -> Sample {
    Sample {
        kind: SampleKind::Delete,
        key: key.as_bytes().to_vec(),
        payload: Vec::new(),
        encoding: Vec::new(),
        timestamp: Timestamp::new(time, 1),
    }
}

fn read(s: &FileSystemStorage, key: &str) -> Option<(Vec<u8>, Vec<u8>, Timestamp)> {
    s.files_mgr().read_file(key.as_bytes())
}

fn query_keys(s: &FileSystemStorage, ke: &str) -> Vec<String> {
    let mut keys: Vec<String> = s
        .on_query(ke.as_bytes())
        .into_iter()
        .map(|r| String::from_utf8(r.key).unwrap())
        .collect();
    keys.sort();
    keys
}

#[test]
fn older_write_after_newer_is_ignored() {
    let mut s = storage(false);
    assert_eq!(s.on_sample(&put("k", "new", "text/plain", 20)), Ok(StorageInsertionResult::Inserted));
    assert_eq!(s.on_sample(&put("k", "old", "text/plain", 10)), Ok(StorageInsertionResult::Outdated));
    let (payload, _, ts) = read(&s, "k").unwrap();
    assert_eq!(payload, b"new".to_vec());
    assert_eq!(ts, Timestamp::new(20, 1));
}

#[test]
fn writes_in_order_end_with_the_newer() {
    let mut s = storage(false);
    assert_eq!(s.on_sample(&put("k", "old", "text/plain", 10)), Ok(StorageInsertionResult::Inserted));
    assert_eq!(s.on_sample(&put("k", "new", "text/plain", 20)), Ok(StorageInsertionResult::Inserted));
    let (payload, _, ts) = read(&s, "k").unwrap();
    assert_eq!(payload, b"new".to_vec());
    assert_eq!(ts, Timestamp::new(20, 1));
}

#[test]
fn equal_timestamp_is_stale() {
    let mut s = storage(false);
    assert_eq!(s.on_sample(&put("k", "first", "a", 10)), Ok(StorageInsertionResult::Inserted));
    assert_eq!(s.on_sample(&put("k", "second", "a", 10)), Ok(StorageInsertionResult::Outdated));
    assert_eq!(read(&s, "k").unwrap().0, b"first".to_vec());
}

#[test]
fn writer_id_breaks_ties() {
    let mut s = storage(false);
    let mut a = put("k", "a", "e", 10);
    a.timestamp = Timestamp::new(10, 1);
    let mut b = put("k", "b", "e", 10);
    b.timestamp = Timestamp::new(10, 2);
    assert_eq!(s.on_sample(&b), Ok(StorageInsertionResult::Inserted));
    assert_eq!(s.on_sample(&a), Ok(StorageInsertionResult::Outdated));
    assert_eq!(read(&s, "k").unwrap().0, b"b".to_vec());
}

#[test]
fn tombstone_rejects_older_write() {
    let mut s = storage(false);
    assert_eq!(s.on_sample(&put("k", "v", "e", 5)), Ok(StorageInsertionResult::Inserted));
    assert_eq!(s.on_sample(&delete("k", 10)), Ok(StorageInsertionResult::Deleted));
    assert_eq!(s.on_sample(&put("k", "late", "e", 7)), Ok(StorageInsertionResult::Outdated));
    assert_eq!(read(&s, "k"), None);
}

#[test]
fn newer_write_clears_tombstone() {
    let mut s = storage(false);
    assert_eq!(s.on_sample(&delete("k", 10)), Ok(StorageInsertionResult::Deleted));
    assert_eq!(s.on_sample(&put("k", "back", "e", 11)), Ok(StorageInsertionResult::Inserted));
    assert_eq!(read(&s, "k").unwrap().0, b"back".to_vec());
    assert!(s.files_mgr().get_deleted_entries().is_empty());
}

#[test]
fn round_trip_returns_bytes_encoding_and_timestamp() {
    let mut s = storage(false);
    assert_eq!(s.on_sample(&put("demo/example", "hello", "text/plain", 42)), Ok(StorageInsertionResult::Inserted));
    assert_eq!(
        read(&s, "demo/example"),
        Some((b"hello".to_vec(), b"text/plain".to_vec(), Timestamp::new(42, 1)))
    );
}

#[test]
fn enumeration_lists_live_keys_and_tombstones() {
    let mut s = storage(false);
    assert_eq!(s.on_sample(&put("a", "1", "e", 1)), Ok(StorageInsertionResult::Inserted));
    assert_eq!(s.on_sample(&put("b", "2", "e", 2)), Ok(StorageInsertionResult::Inserted));
    assert_eq!(s.on_sample(&put("c", "3", "e", 3)), Ok(StorageInsertionResult::Inserted));
    assert_eq!(s.on_sample(&delete("c", 4)), Ok(StorageInsertionResult::Deleted));
    let mut all: Vec<(String, u64)> = s
        .get_all_entries()
        .into_iter()
        .map(|(k, t)| (String::from_utf8(k).unwrap(), t.time))
        .collect();
    all.sort();
    assert_eq!(all, vec![("a".to_string(), 1), ("b".to_string(), 2), ("c".to_string(), 4)]);
    let deleted = s.files_mgr().get_deleted_entries();
    assert_eq!(deleted, vec![(b"c".to_vec(), Timestamp::new(4, 1))]);
}

#[test]
fn wildcard_queries() {
    let mut s = storage(false);
    for (i, k) in ["a/b", "a/c", "x/y"].iter().enumerate() {
        assert_eq!(s.on_sample(&put(k, "v", "e", i as u64 + 1)), Ok(StorageInsertionResult::Inserted));
    }
    assert_eq!(query_keys(&s, "a/*"), vec!["a/b".to_string(), "a/c".to_string()]);
    assert_eq!(query_keys(&s, "**"), vec!["a/b".to_string(), "a/c".to_string(), "x/y".to_string()]);
    assert_eq!(query_keys(&s, "a/**"), vec!["a/b".to_string(), "a/c".to_string()]);
    assert_eq!(query_keys(&s, "*/y"), vec!["x/y".to_string()]);
    assert_eq!(query_keys(&s, "x/y"), vec!["x/y".to_string()]);
    assert!(query_keys(&s, "x/z").is_empty());
    assert!(query_keys(&s, "b/*").is_empty());
}

#[test]
fn query_does_not_return_deleted_keys() {
    let mut s = storage(false);
    assert_eq!(s.on_sample(&put("a/b", "v", "e", 1)), Ok(StorageInsertionResult::Inserted));
    assert_eq!(s.on_sample(&delete("a/b", 2)), Ok(StorageInsertionResult::Deleted));
    assert!(query_keys(&s, "a/*").is_empty());
    assert!(query_keys(&s, "a/b").is_empty());
}

#[test]
fn delete_of_unknown_key_leaves_tombstone() {
    let mut s = storage(false);
    assert_eq!(s.on_sample(&delete("never/written", 3)), Ok(StorageInsertionResult::Deleted));
    assert_eq!(s.files_mgr().get_timestamp(b"never/written"), Some(Timestamp::new(3, 1)));
    assert_eq!(
        s.files_mgr().get_deleted_entries(),
        vec![(b"never/written".to_vec(), Timestamp::new(3, 1))]
    );
}

#[test]
fn read_only_storage_rejects_samples() {
    let mut s = storage(true);
    assert_eq!(s.on_sample(&put("k", "v", "e", 1)), Err(StorageError::ReadOnlyViolation));
    assert_eq!(s.on_sample(&delete("k", 2)), Err(StorageError::ReadOnlyViolation));
    assert!(s.get_all_entries().is_empty());
    assert!(s.read_only());
}

#[test]
fn invalid_key_is_rejected() {
    let mut s = storage(false);
    assert_eq!(s.on_sample(&put("a/*", "v", "e", 1)), Err(StorageError::InvalidKey));
    assert_eq!(s.on_sample(&put("a//b", "v", "e", 1)), Err(StorageError::InvalidKey));
    assert_eq!(s.on_sample(&delete("", 1)), Err(StorageError::InvalidKey));
    assert!(s.get_all_entries().is_empty());
}

#[test]
fn discovered_file_is_adopted_once() {
    let mut s = storage(true);
    assert!(s.adopt_file(b"found/file", b"bytes", b"application/octet-stream", Timestamp::new(7, 0)));
    assert_eq!(
        read(&s, "found/file"),
        Some((b"bytes".to_vec(), b"application/octet-stream".to_vec(), Timestamp::new(7, 0)))
    );
    assert!(!s.adopt_file(b"found/file", b"other", b"text/plain", Timestamp::new(9, 0)));
    assert_eq!(read(&s, "found/file").unwrap().0, b"bytes".to_vec());
    assert!(!s.adopt_file(b"bad//key", b"x", b"e", Timestamp::new(1, 0)));
    assert_eq!(query_keys(&s, "found/*"), vec!["found/file".to_string()]);
}
