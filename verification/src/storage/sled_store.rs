//! Sled-backed storage.

use vstd::prelude::*;
use super::{Storage, StorageError};

verus! {

#[verifier::external_type_specification]
#[verifier::external_body]
pub struct ExSledDb(sled::Db);

/// What a sled tree holds. sled locks its directory for one process, and a
/// `SledStorage` keeps the only handle to its tree, so the tree changes only
/// through the calls below.
pub uninterp spec fn sled_contents(db: sled::Db) -> Map<Seq<u8>, Seq<u8>>;

/// `sled::open` on the directory `path`; the outcome depends on the file
/// system, so nothing is promised of it.
#[verifier::external_body]
fn sled_open(path: &str) -> Result<sled::Db, sled::Error> {
    sled::open(path)
}

/// `sled::Tree::get` of `key`, the value copied out: on success, the value
/// the tree holds under `key`, or `None` where it holds none.
#[verifier::external_body]
fn sled_get(db: &sled::Db, key: &[u8]) -> (r: Result<Option<Vec<u8>>, sled::Error>)
    ensures
        r matches Ok(found) ==> match found {
            Some(v) => sled_contents(*db).contains_key(key@) && sled_contents(*db)[key@] == v@,
            None => !sled_contents(*db).contains_key(key@),
        },
{
    db.get(key).map(|found| found.map(|ivec| ivec.to_vec()))
}

/// `sled::Tree::insert` of `value` under `key`; the previous value it hands
/// back is not kept. On success the tree holds `value` under `key`; on
/// failure it holds what it held, or already the new value.
#[verifier::external_body]
fn sled_insert(db: &mut sled::Db, key: &[u8], value: &[u8]) -> (r: Result<(), sled::Error>)
    ensures
        sled_contents(*final(db)) == sled_contents(*old(db)).insert(key@, value@) || (r is Err
            && sled_contents(*final(db)) == sled_contents(*old(db))),
{
    db.insert(key, value).map(|_previous| ())
}

/// `sled::Tree::remove` of `key`; the removed value it hands back is not
/// kept. On success the tree holds nothing under `key`; on failure it holds
/// what it held, or already lacks the key.
#[verifier::external_body]
fn sled_remove(db: &mut sled::Db, key: &[u8]) -> (r: Result<(), sled::Error>)
    ensures
        sled_contents(*final(db)) == sled_contents(*old(db)).remove(key@) || (r is Err
            && sled_contents(*final(db)) == sled_contents(*old(db))),
{
    db.remove(key).map(|_previous| ())
}

/// `sled::Tree::flush`: writes dirty buffers to disk, giving the number of
/// bytes flushed; what the tree holds does not change.
#[verifier::external_body]
fn sled_flush(db: &mut sled::Db) -> (r: Result<usize, sled::Error>)
    ensures
        sled_contents(*final(db)) == sled_contents(*old(db)),
{
    db.flush()
}

/// Sled database implementation of `Storage`.
pub struct SledStorage {
    db: sled::Db,
}

impl SledStorage {
    /// Opens (or creates) a sled database in the directory `path`.
    pub fn new(path: &str) -> (r: Result<Self, StorageError>)
        ensures
            r matches Err(e) ==> e is Sled,
    {
        match sled_open(path) {
            Ok(db) => Ok(SledStorage { db }),
            Err(e) => Err(StorageError::Sled(e)),
        }
    }
}

impl Storage for SledStorage {
    open spec fn models_contents(&self) -> bool {
        true
    }

    open spec fn infallible(&self) -> bool {
        false
    }

    closed spec fn contents(&self) -> Map<Seq<u8>, Seq<u8>> {
        sled_contents(self.db)
    }

    open spec fn well_formed(&self) -> bool {
        true
    }

    /// Errors are sled's.
    fn get(&self, key: &[u8]) -> (r: Result<Option<Vec<u8>>, StorageError>)
        ensures
            r matches Err(e) ==> e is Sled,
    {
        match sled_get(&self.db, key) {
            Ok(found) => Ok(found),
            Err(e) => Err(StorageError::Sled(e)),
        }
    }

    /// Inserts, then flushes to disk.
    fn put(&mut self, key: &[u8], value: &[u8]) -> (r: Result<(), StorageError>)
        ensures
            r matches Err(e) ==> e is Sled,
    {
        match sled_insert(&mut self.db, key, value) {
            Ok(()) => {},
            Err(e) => return Err(StorageError::Sled(e)),
        }
        match sled_flush(&mut self.db) {
            Ok(_) => Ok(()),
            Err(e) => Err(StorageError::Sled(e)),
        }
    }

    /// Removes, then flushes to disk.
    fn delete(&mut self, key: &[u8]) -> (r: Result<(), StorageError>)
        ensures
            r matches Err(e) ==> e is Sled,
    {
        match sled_remove(&mut self.db, key) {
            Ok(()) => {},
            Err(e) => return Err(StorageError::Sled(e)),
        }
        match sled_flush(&mut self.db) {
            Ok(_) => Ok(()),
            Err(e) => Err(StorageError::Sled(e)),
        }
    }
}

} // verus!
