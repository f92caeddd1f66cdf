use std::cell::RefCell;
use std::rc::Rc;

use cache_rs::storage::lmdb_store::LmdbStorage;
use cache_rs::storage::mapservice::MapService;
use cache_rs::storage::memory::InMemoryStorage;
use cache_rs::storage::sled_store::SledStorage;
use cache_rs::storage::wal::{
    apply_operation, encode_record, split_records, Operation, OperationLog, WalStorage,
};
use cache_rs::storage::{Storage, StorageError};
use tempfile::tempdir;

fn test_storage<S: Storage>(store: &mut S) -> Result<(), StorageError> {
    store.put(b"k1", b"v1")?;
    assert_eq!(store.get(b"k1")?.unwrap(), b"v1".to_vec());
    store.delete(b"k1")?;
    assert!(store.get(b"k1")?.is_none());
    Ok(())
}

/// A log kept in memory as framed records, shared between stores the way a
/// file would be. Operations are written as tag byte, then a length-prefixed
/// key and value.
#[derive(Clone, Default)]
struct SharedLog {
    bytes: Rc<RefCell<Vec<u8>>>,
}

fn put_field(out: &mut Vec<u8>, field: &[u8]) {
    out.extend_from_slice(&(field.len() as u32).to_le_bytes());
    out.extend_from_slice(field);
}

fn take_field(input: &[u8]) -> (Vec<u8>, &[u8]) {
    let len = u32::from_le_bytes([input[0], input[1], input[2], input[3]]) as usize;
    (input[4..4 + len].to_vec(), &input[4 + len..])
}

impl OperationLog for SharedLog {
    fn replay(&mut self) -> Result<Vec<Operation>, StorageError> {
        let payloads = split_records(&self.bytes.borrow()).expect("log is whole");
        Ok(payloads
            .into_iter()
            .map(|p| {
                let (key, rest) = take_field(&p[1..]);
                if p[0] == 0 {
                    let (value, _) = take_field(rest);
                    Operation::Put { key, value }
                } else {
                    Operation::Delete { key }
                }
            })
            .collect())
    }

    fn append_op(&mut self, op: &Operation) -> Result<(), StorageError> {
        let mut payload = Vec::new();
        match op {
            Operation::Put { key, value } => {
                payload.push(0);
                put_field(&mut payload, key);
                put_field(&mut payload, value);
            }
            Operation::Delete { key } => {
                payload.push(1);
                put_field(&mut payload, key);
            }
        }
        self.bytes.borrow_mut().extend_from_slice(&encode_record(&payload));
        Ok(())
    }
}

/// A log whose appends always fail.
struct BrokenLog;

impl OperationLog for BrokenLog {
    fn replay(&mut self) -> Result<Vec<Operation>, StorageError> {
        Ok(Vec::new())
    }

    fn append_op(&mut self, _op: &Operation) -> Result<(), StorageError> {
        Err(StorageError::Io(std::io::Error::new(std::io::ErrorKind::Other, "disk full")))
    }
}

#[test]
fn in_memory_works() -> Result<(), StorageError> {
    let mut mem = InMemoryStorage::new();
    test_storage(&mut mem)
}

#[test]
fn sled_storage_works() -> Result<(), StorageError> {
    let dir = tempdir().unwrap();
    let mut sled = SledStorage::new(dir.path().join("sled_db").to_str().unwrap())?;
    test_storage(&mut sled)
}

#[test]
fn lmdb_storage_works() -> Result<(), StorageError> {
    let dir = tempfile::Builder::new().prefix("lmdb").tempdir().unwrap();
    let mut lmdb = LmdbStorage::new(dir.path().to_str().unwrap(), 1)?;
    test_storage(&mut lmdb)
}

#[test]
fn wal_on_in_memory_basic_works() -> Result<(), StorageError> {
    let mem = InMemoryStorage::new();
    let mut wal = WalStorage::new(mem, SharedLog::default())?;
    test_storage(&mut wal)
}

#[test]
fn wal_on_sled_basic_works() -> Result<(), StorageError> {
    let dir = tempdir().unwrap();
    let sled = SledStorage::new(dir.path().join("sled2").to_str().unwrap())?;
    let mut wal = WalStorage::new(sled, SharedLog::default())?;
    test_storage(&mut wal)
}

#[test]
fn wal_on_in_memory_replay_works() -> Result<(), StorageError> {
    let log = SharedLog::default();
    {
        let mem1 = InMemoryStorage::new();
        let mut store1 = WalStorage::new(mem1, log.clone())?;
        store1.put(b"a", b"1")?;
        store1.put(b"b", b"2")?;
    }
    let mem2 = InMemoryStorage::new();
    let store2 = WalStorage::new(mem2, log.clone())?;
    assert_eq!(store2.get(b"a")?.unwrap(), b"1".to_vec());
    assert_eq!(store2.get(b"b")?.unwrap(), b"2".to_vec());
    Ok(())
}

#[test]
fn wal_on_sled_replay_works() -> Result<(), StorageError> {
    let dir = tempdir().unwrap();
    let log = SharedLog::default();
    {
        let sled1 = SledStorage::new(dir.path().join("sled3").to_str().unwrap())?;
        let mut store1 = WalStorage::new(sled1, log.clone())?;
        store1.put(b"x", b"7")?;
        store1.put(b"y", b"8")?;
    }
    let sled2 = SledStorage::new(dir.path().join("sled4").to_str().unwrap())?;
    let store2 = WalStorage::new(sled2, log.clone())?;
    assert_eq!(store2.get(b"x")?.unwrap(), b"7".to_vec());
    assert_eq!(store2.get(b"y")?.unwrap(), b"8".to_vec());
    Ok(())
}

#[test]
fn lmdb_basic_operations() -> Result<(), StorageError> {
    let dir = tempfile::Builder::new().prefix("testdb").tempdir().unwrap();
    let mut store = LmdbStorage::new(dir.path().to_str().unwrap(), 1)?;

    assert!(store.get(b"foo")?.is_none());

    store.put(b"foo", b"bar")?;
    assert_eq!(store.get(b"foo")?.as_deref(), Some(&b"bar"[..]));

    store.delete(b"foo")?;
    assert!(store.get(b"foo")?.is_none());
    Ok(())
}

#[test]
fn lmdb_put_if_absent() -> Result<(), StorageError> {
    let dir = tempfile::Builder::new().prefix("testdb2").tempdir().unwrap();
    let mut store = LmdbStorage::new(dir.path().to_str().unwrap(), 1)?;

    assert!(store.put_if_absent(b"key", b"value1")?);
    assert_eq!(store.get(b"key")?.unwrap(), b"value1".to_vec());

    assert!(!store.put_if_absent(b"key", b"value2")?);
    assert_eq!(store.get(b"key")?.unwrap(), b"value1".to_vec());
    Ok(())
}

#[test]
fn in_memory_put_if_absent_keeps_first_value() -> Result<(), StorageError> {
    let mut store = InMemoryStorage::new();
    assert!(store.put_if_absent(b"key", b"value1")?);
    assert!(!store.put_if_absent(b"key", b"value2")?);
    assert_eq!(store.get(b"key")?.unwrap(), b"value1".to_vec());
    Ok(())
}

#[test]
fn in_memory_overwrite_and_other_keys() -> Result<(), StorageError> {
    let mut store = InMemoryStorage::new();
    store.put(b"a", b"1")?;
    store.put(b"b", b"2")?;
    store.put(b"a", b"3")?;
    assert_eq!(store.get(b"a")?, Some(b"3".to_vec()));
    assert_eq!(store.get(b"b")?, Some(b"2".to_vec()));
    store.delete(b"a")?;
    assert_eq!(store.get(b"a")?, None);
    assert_eq!(store.get(b"b")?, Some(b"2".to_vec()));
    // deleting a missing key is no error
    store.delete(b"zzz")?;
    assert_eq!(store.get(b"b")?, Some(b"2".to_vec()));
    Ok(())
}

#[test]
fn lmdb_delete_missing_key_is_ok() -> Result<(), StorageError> {
    let dir = tempdir().unwrap();
    let mut store = LmdbStorage::new(dir.path().to_str().unwrap(), 1)?;
    store.delete(b"nothing")?;
    Ok(())
}

#[test]
fn map_service_maps_are_separate() -> Result<(), StorageError> {
    let dir = tempdir().unwrap();
    let service = MapService::new(dir.path().to_str().unwrap(), 16)?;
    let mut users = service.get_map("user")?;
    let mut orders = service.get_map("orders")?;
    users.put(b"noel::address", b"123 Maple St.")?;
    orders.put(b"order123", b"{...}")?;
    assert_eq!(users.get(b"noel::address")?, Some(b"123 Maple St.".to_vec()));
    assert_eq!(users.get(b"order123")?, None);
    assert_eq!(orders.get(b"order123")?, Some(b"{...}".to_vec()));
    let again = users.use_db("orders")?;
    assert_eq!(again.get(b"order123")?, Some(b"{...}".to_vec()));
    Ok(())
}

#[test]
fn wal_failed_append_changes_nothing() -> Result<(), StorageError> {
    let mut store = WalStorage::new(InMemoryStorage::new(), BrokenLog)?;
    assert!(store.put(b"a", b"1").is_err());
    assert_eq!(store.get(b"a")?, None);
    Ok(())
}

#[test]
fn wal_replay_applies_deletes_in_order() -> Result<(), StorageError> {
    let log = SharedLog::default();
    {
        let mut store1 = WalStorage::new(InMemoryStorage::new(), log.clone())?;
        store1.put(b"a", b"1")?;
        store1.delete(b"a")?;
        store1.put(b"b", b"2")?;
        store1.put(b"b", b"3")?;
    }
    let store2 = WalStorage::new(InMemoryStorage::new(), log.clone())?;
    assert_eq!(store2.get(b"a")?, None);
    assert_eq!(store2.get(b"b")?, Some(b"3".to_vec()));
    Ok(())
}

#[test]
fn records_read_back_as_written() {
    let mut log = Vec::new();
    log.extend_from_slice(&encode_record(b"first"));
    log.extend_from_slice(&encode_record(b""));
    log.extend_from_slice(&encode_record(b"third record"));
    assert_eq!(encode_record(b"first"), vec![5, 0, 0, 0, b'f', b'i', b'r', b's', b't']);
    let records = split_records(&log).unwrap();
    assert_eq!(records, vec![b"first".to_vec(), Vec::new(), b"third record".to_vec()]);
}

#[test]
fn short_tail_ends_log_but_cut_record_fails() {
    let mut log = encode_record(b"abc");
    log.extend_from_slice(&[1, 0]);
    assert_eq!(split_records(&log).unwrap(), vec![b"abc".to_vec()]);
    let mut cut = encode_record(b"abc");
    cut.extend_from_slice(&[9, 0, 0, 0, 1, 2]);
    assert!(split_records(&cut).is_none());
}

#[test]
fn apply_operation_puts_and_deletes() -> Result<(), StorageError> {
    let mut store = InMemoryStorage::new();
    apply_operation(&mut store, &Operation::Put { key: b"k".to_vec(), value: b"v".to_vec() })?;
    assert_eq!(store.get(b"k")?, Some(b"v".to_vec()));
    apply_operation(&mut store, &Operation::Delete { key: b"k".to_vec() })?;
    assert_eq!(store.get(b"k")?, None);
    Ok(())
}

#[test]
fn lmdb_open_in_missing_directory_is_lmdb_error() {
    let dir = tempdir().unwrap();
    let missing = dir.path().join("absent");
    assert!(matches!(LmdbStorage::new(missing.to_str().unwrap(), 1), Err(StorageError::Lmdb(_))));
}

#[test]
fn failing_store_gives_failed_reply() {
    let store = WalStorage::new(InMemoryStorage::new(), BrokenLog).unwrap();
    let mut server = cache_rs::protocol::MapServer::new(vec![("m".to_string(), store)]);
    let mut req = vec![1u8, b'm', 0x03];
    req.extend_from_slice(&1u32.to_be_bytes());
    req.push(b'k');
    assert_eq!(
        server.step(&req),
        cache_rs::protocol::Step::Reply {
            reply: cache_rs::protocol::MapReply::Failed,
            consumed: req.len(),
            close: false
        }
    );
}
