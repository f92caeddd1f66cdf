//! Key-value storage behind one trait, with in-memory, LMDB and sled
//! backends and a write-ahead-log wrapper.

use vstd::prelude::*;

pub mod lmdb_store;
pub mod mapservice;
pub mod memory;
pub mod sled_store;
pub mod wal;

verus! {

#[verifier::external_type_specification]
#[verifier::external_body]
pub struct ExIoError(std::io::Error);

#[verifier::external_type_specification]
#[verifier::external_body]
pub struct ExBincodeErrorKind(bincode::ErrorKind);

#[verifier::external_type_specification]
#[verifier::external_body]
pub struct ExSledError(sled::Error);

/// Errors that can occur in storage operations.
#[derive(Debug)]
pub enum StorageError {
    /// An LMDB error.
    Lmdb(lmdb::Error),
    /// A sled error.
    Sled(sled::Error),
    /// An I/O error, from the write-ahead log.
    Io(std::io::Error),
    /// A record of the write-ahead log could not be (de)serialised.
    Serde(Box<bincode::ErrorKind>),
}

/// What a lookup in `m` for `key` answers with: the stored value, or `None`
/// where the key is absent.
pub open spec fn lookup_matches(
    m: Map<Seq<u8>, Seq<u8>>,
    key: Seq<u8>,
    r: Result<Option<Vec<u8>>, StorageError>,
) -> bool {
    match r {
        Ok(Some(v)) => m.contains_key(key) && m[key] == v@,
        Ok(None) => !m.contains_key(key),
        Err(_) => false,
    }
}

/// Generic storage: a map from byte-string keys to byte-string values.
///
/// `contents` is the map a backend holds. Where `models_contents` holds,
/// every operation is stated exactly over it: a successful write changes it
/// as the operation says; a failed one either leaves it as it was or has
/// already made the change (a store that writes, then fails to flush).
/// Where `infallible` holds, no operation fails. A store whose contents
/// can change behind the program's back makes neither promise.
pub trait Storage {
    /// Whether `contents` is an exact account of this store.
    spec fn models_contents(&self) -> bool;

    /// Whether no operation of this store can fail.
    spec fn infallible(&self) -> bool;

    /// The map the store holds.
    spec fn contents(&self) -> Map<Seq<u8>, Seq<u8>>;

    /// The store's internal invariant.
    spec fn well_formed(&self) -> bool;

    /// Gets a value by key: `Ok(None)` if the key is not found.
    fn get(&self, key: &[u8]) -> (r: Result<Option<Vec<u8>>, StorageError>)
        requires
            self.well_formed(),
        ensures
            self.models_contents() && r is Ok ==> lookup_matches(self.contents(), key@, r),
            self.infallible() ==> r is Ok,
    ;

    /// Puts a key-value pair into storage.
    fn put(&mut self, key: &[u8], value: &[u8]) -> (r: Result<(), StorageError>)
        requires
            old(self).well_formed(),
        ensures
            final(self).well_formed(),
            final(self).models_contents() == old(self).models_contents(),
            final(self).infallible() == old(self).infallible(),
            old(self).models_contents() ==> final(self).contents() == old(self).contents().insert(
                key@,
                value@,
            ) || (r is Err && final(self).contents() == old(self).contents()),
            old(self).infallible() ==> r is Ok,
    ;

    /// Deletes a key (a no-op where it is missing).
    fn delete(&mut self, key: &[u8]) -> (r: Result<(), StorageError>)
        requires
            old(self).well_formed(),
        ensures
            final(self).well_formed(),
            final(self).models_contents() == old(self).models_contents(),
            final(self).infallible() == old(self).infallible(),
            old(self).models_contents() ==> final(self).contents() == old(self).contents().remove(
                key@,
            ) || (r is Err && final(self).contents() == old(self).contents()),
            old(self).infallible() ==> r is Ok,
    ;

    /// Puts `value` under `key` only where the key is absent: `Ok(true)`
    /// when it was inserted, `Ok(false)` when the key was already there and
    /// nothing changed. By default a lookup followed by a put.
    fn put_if_absent(&mut self, key: &[u8], value: &[u8]) -> (r: Result<bool, StorageError>)
        requires
            old(self).well_formed(),
        ensures
            final(self).well_formed(),
            final(self).models_contents() == old(self).models_contents(),
            final(self).infallible() == old(self).infallible(),
            old(self).models_contents() ==> match r {
                Ok(inserted) => {
                    &&& inserted == !old(self).contents().contains_key(key@)
                    &&& final(self).contents() == if inserted {
                        old(self).contents().insert(key@, value@)
                    } else {
                        old(self).contents()
                    }
                },
                Err(_) => final(self).contents() == old(self).contents() || (!old(
                    self,
                ).contents().contains_key(key@) && final(self).contents() == old(
                    self,
                ).contents().insert(key@, value@)),
            },
            old(self).infallible() ==> r is Ok,
    {
        match self.get(key) {
            Ok(Some(_)) => Ok(false),
            Ok(None) => match self.put(key, value) {
                Ok(()) => Ok(true),
                Err(e) => Err(e),
            },
            Err(e) => Err(e),
        }
    }
}

/// A read after a write gives back what the write wrote: where a store's
/// contents after `put(key, value)` answer a lookup of `key`, the answer
/// is `value`.
pub proof fn lemma_get_after_put(
    before: Map<Seq<u8>, Seq<u8>>,
    key: Seq<u8>,
    value: Seq<u8>,
    r: Result<Option<Vec<u8>>, StorageError>,
)
    requires
        lookup_matches(before.insert(key, value), key, r),
    ensures
        r matches Ok(Some(v)) && v@ == value,
{
}

/// A read after a delete finds nothing.
pub proof fn lemma_get_after_delete(
    before: Map<Seq<u8>, Seq<u8>>,
    key: Seq<u8>,
    r: Result<Option<Vec<u8>>, StorageError>,
)
    requires
        lookup_matches(before.remove(key), key, r),
    ensures
        r matches Ok(None),
{
}

/// A write to one key leaves every other key as it was: a lookup of
/// another key after a put or a delete answers as it did before.
pub proof fn lemma_write_keeps_other_keys(
    before: Map<Seq<u8>, Seq<u8>>,
    key: Seq<u8>,
    value: Seq<u8>,
    other: Seq<u8>,
    r: Result<Option<Vec<u8>>, StorageError>,
)
    requires
        other != key,
    ensures
        lookup_matches(before.insert(key, value), other, r) <==> lookup_matches(before, other, r),
        lookup_matches(before.remove(key), other, r) <==> lookup_matches(before, other, r),
{
}

} // verus!
