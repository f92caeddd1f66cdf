//! LMDB-backed key-value store with one named database, `kv`.

use vstd::prelude::*;
use crate::lmdb_env::{
    begin_ro_txn, begin_rw_txn, create_db, env_builder, is_not_found, open_env, set_map_size,
    set_max_dbs, txn_abort, txn_commit, txn_del, txn_get, txn_put, write_flags_empty,
};
use std::sync::Arc;

verus! {

/// Errors returned by `KvStore` operations.
#[derive(Debug)]
pub enum KvsError {
    /// An underlying LMDB error occurred.
    Lmdb(lmdb::Error),
}

/// Size of the memory map: 1 GiB, which caps the database's size.
pub const MAP_SIZE: usize = 0x4000_0000;

/// LMDB-backed key-value store; clones share the environment.
pub struct KvStore {
    env: Arc<lmdb::Environment>,
    db: lmdb::Database,
}

/// How a read answers given what LMDB's `get` returned, `missing` telling
/// whether a failure was LMDB's `NotFound`.
pub fn read_outcome(got: Result<Vec<u8>, lmdb::Error>, missing: bool) -> (r: Result<
    Option<Vec<u8>>,
    KvsError,
>)
    ensures
        match got {
            Ok(v) => r == Ok::<Option<Vec<u8>>, KvsError>(Some(v)),
            Err(e) => if missing {
                r == Ok::<Option<Vec<u8>>, KvsError>(None)
            } else {
                r == Err::<Option<Vec<u8>>, KvsError>(KvsError::Lmdb(e))
            },
        },
{
    match got {
        Ok(v) => Ok(Some(v)),
        Err(e) => if missing {
            Ok(None)
        } else {
            Err(KvsError::Lmdb(e))
        },
    }
}

/// How a delete answers given what LMDB's `del` returned (`missing` telling
/// whether a failure was LMDB's `NotFound`) and, where it succeeded, what
/// committing the transaction returned: the number of entries removed.
pub fn delete_outcome(
    deleted: Result<(), lmdb::Error>,
    missing: bool,
    committed: Option<Result<(), lmdb::Error>>,
) -> (r: Result<usize, KvsError>)
    requires
        deleted is Ok <==> committed is Some,
    ensures
        match deleted {
            Ok(()) => match committed {
                Some(Ok(())) => r == Ok::<usize, KvsError>(1),
                Some(Err(e)) => r == Err::<usize, KvsError>(KvsError::Lmdb(e)),
                None => false,
            },
            Err(e) => if missing {
                r == Ok::<usize, KvsError>(0)
            } else {
                r == Err::<usize, KvsError>(KvsError::Lmdb(e))
            },
        },
{
    match deleted {
        Ok(()) => match committed {
            Some(Ok(())) => Ok(1),
            Some(Err(e)) => Err(KvsError::Lmdb(e)),
            None => Ok(1),
        },
        Err(e) => if missing {
            Ok(0)
        } else {
            Err(KvsError::Lmdb(e))
        },
    }
}

impl Clone for KvStore {
    fn clone(&self) -> (c: Self) {
        KvStore { env: self.env.clone(), db: self.db }
    }
}

impl KvStore {
    /// Opens (or creates) an LMDB environment in the directory `path`, with
    /// room for one named database and a 1 GiB map, and creates the
    /// database `kv` in it.
    pub fn open(path: &str) -> (r: Result<KvStore, KvsError>) {
        let mut builder = env_builder();
        set_max_dbs(&mut builder, 1);
        set_map_size(&mut builder, MAP_SIZE);
        let env = match open_env(&builder, path) {
            Ok(env) => env,
            Err(e) => return Err(KvsError::Lmdb(e)),
        };
        proof {
            reveal_strlit("kv");
            assert("kv"@ =~= seq!['k', 'v']);
        }
        let db = match create_db(&env, "kv") {
            Ok(db) => db,
            Err(e) => return Err(KvsError::Lmdb(e)),
        };
        Ok(KvStore { env: Arc::new(env), db })
    }

    /// Inserts or updates the value under `key`, in a transaction of its
    /// own that is committed before returning.
    pub fn put(&self, key: &[u8], value: &[u8]) -> (r: Result<(), KvsError>) {
        let mut txn = match begin_rw_txn(&self.env) {
            Ok(t) => t,
            Err(e) => return Err(KvsError::Lmdb(e)),
        };
        match txn_put(&mut txn, self.db, key, value, write_flags_empty()) {
            Ok(()) => {},
            Err(e) => return Err(KvsError::Lmdb(e)),
        }
        match txn_commit(txn) {
            Ok(()) => Ok(()),
            Err(e) => Err(KvsError::Lmdb(e)),
        }
    }

    /// Deletes the entry for `key`, if it exists, giving the number of
    /// entries removed: 1 when one was deleted and committed, 0 when the key
    /// was not there (the transaction is then aborted).
    pub fn delete(&self, key: &[u8]) -> (r: Result<usize, KvsError>)
        ensures
            r matches Ok(n) ==> n == 0 || n == 1,
    {
        let mut txn = match begin_rw_txn(&self.env) {
            Ok(t) => t,
            Err(e) => return Err(KvsError::Lmdb(e)),
        };
        let deleted = txn_del(&mut txn, self.db, key);
        let missing = match &deleted {
            Ok(()) => false,
            Err(e) => is_not_found(e),
        };
        let committed = match &deleted {
            Ok(()) => Some(txn_commit(txn)),
            Err(_) => {
                if missing {
                    txn_abort(txn);
                }
                None
            },
        };
        delete_outcome(deleted, missing, committed)
    }

    /// Retrieves the value for `key`: `Ok(Some(value))` where present,
    /// `Ok(None)` where LMDB reports the key missing, an error otherwise.
    pub fn get(&self, key: &[u8]) -> (r: Result<Option<Vec<u8>>, KvsError>) {
        let txn = match begin_ro_txn(&self.env) {
            Ok(t) => t,
            Err(e) => return Err(KvsError::Lmdb(e)),
        };
        let got = txn_get(&txn, self.db, key);
        let missing = match &got {
            Ok(_) => false,
            Err(e) => is_not_found(e),
        };
        read_outcome(got, missing)
    }
}

} // verus!
