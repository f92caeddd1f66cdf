//! LMDB-backed storage: one named database in a shared environment.

use vstd::prelude::*;
use super::{Storage, StorageError};
use crate::lmdb_env::{
    begin_ro_txn, begin_rw_txn, create_db, env_builder, is_key_exist, is_not_found, lmdb_error_code,
    open_env, set_max_dbs, txn_abort, txn_commit, txn_del, txn_get, txn_put, write_flags_empty,
    write_flags_no_overwrite, MDB_KEYEXIST, MDB_NOTFOUND,
};
use std::sync::Arc;

verus! {

/// LMDB-backed implementation of `Storage`.
pub struct LmdbStorage {
    /// Shared LMDB environment (memory-mapped).
    pub env: Arc<lmdb::Environment>,
    /// Handle to the named database within the environment.
    pub db: lmdb::Database,
}

/// How a lookup answers given what LMDB's `get` returned: the value, `None`
/// where LMDB reports the key missing, the error otherwise.
pub fn lookup_outcome(got: Result<Vec<u8>, lmdb::Error>) -> (r: Result<Option<Vec<u8>>, StorageError>)
    ensures
        match got {
            Ok(v) => r == Ok::<Option<Vec<u8>>, StorageError>(Some(v)),
            Err(e) => if lmdb_error_code(e) == MDB_NOTFOUND {
                r == Ok::<Option<Vec<u8>>, StorageError>(None)
            } else {
                r == Err::<Option<Vec<u8>>, StorageError>(StorageError::Lmdb(e))
            },
        },
{
    match got {
        Ok(v) => Ok(Some(v)),
        Err(e) => if is_not_found(&e) {
            Ok(None)
        } else {
            Err(StorageError::Lmdb(e))
        },
    }
}

/// What LMDB's `del` returned, with a missing key counted as success: a
/// delete of an absent key is no error.
pub fn tolerate_missing(deleted: Result<(), lmdb::Error>) -> (r: Result<(), lmdb::Error>)
    ensures
        match deleted {
            Ok(()) => r is Ok,
            Err(e) => if lmdb_error_code(e) == MDB_NOTFOUND {
                r is Ok
            } else {
                r == Err::<(), lmdb::Error>(e)
            },
        },
{
    match deleted {
        Ok(()) => Ok(()),
        Err(e) => if is_not_found(&e) {
            Ok(())
        } else {
            Err(e)
        },
    }
}

/// How a no-overwrite insert answers given what LMDB's `put` returned and,
/// where it succeeded, what committing returned: `true` when inserted and
/// committed, `false` where LMDB reports the key already present.
pub fn insert_outcome(
    put: Result<(), lmdb::Error>,
    committed: Option<Result<(), lmdb::Error>>,
) -> (r: Result<bool, StorageError>)
    requires
        put is Ok <==> committed is Some,
    ensures
        match put {
            Ok(()) => match committed {
                Some(Ok(())) => r == Ok::<bool, StorageError>(true),
                Some(Err(e)) => r == Err::<bool, StorageError>(StorageError::Lmdb(e)),
                None => false,
            },
            Err(e) => if lmdb_error_code(e) == MDB_KEYEXIST {
                r == Ok::<bool, StorageError>(false)
            } else {
                r == Err::<bool, StorageError>(StorageError::Lmdb(e))
            },
        },
{
    match put {
        Ok(()) => match committed {
            Some(Ok(())) => Ok(true),
            Some(Err(e)) => Err(StorageError::Lmdb(e)),
            None => Ok(true),
        },
        Err(e) => if is_key_exist(&e) {
            Ok(false)
        } else {
            Err(StorageError::Lmdb(e))
        },
    }
}

impl LmdbStorage {
    /// Opens an LMDB environment in the directory `path`, allowing
    /// `max_dbs` named databases, and creates the database `kv_store` in it.
    pub fn new(path: &str, max_dbs: u32) -> (r: Result<Self, StorageError>)
        ensures
            r matches Err(e) ==> e is Lmdb,
    {
        let mut builder = env_builder();
        set_max_dbs(&mut builder, max_dbs);
        let env = match open_env(&builder, path) {
            Ok(env) => env,
            Err(e) => return Err(StorageError::Lmdb(e)),
        };
        proof {
            reveal_strlit("kv_store");
            assert("kv_store"@ =~= seq!['k', 'v', '_', 's', 't', 'o', 'r', 'e']);
        }
        let db = match create_db(&env, "kv_store") {
            Ok(db) => db,
            Err(e) => return Err(StorageError::Lmdb(e)),
        };
        Ok(LmdbStorage { env: Arc::new(env), db })
    }

    /// A storage for the named database `name` of an existing shared
    /// environment, created if it does not exist yet.
    pub fn from_env(env: Arc<lmdb::Environment>, name: &str) -> (r: Result<Self, StorageError>)
        requires
            !name@.contains('\0'),
        ensures
            r matches Ok(s) ==> s.env == env,
            r matches Err(e) ==> e is Lmdb,
    {
        match create_db(&env, name) {
            Ok(db) => Ok(LmdbStorage { env, db }),
            Err(e) => Err(StorageError::Lmdb(e)),
        }
    }

    /// A storage for another named database, `name`, in this storage's
    /// environment.
    pub fn use_db(&self, name: &str) -> (r: Result<Self, StorageError>)
        requires
            !name@.contains('\0'),
        ensures
            r matches Ok(s) ==> s.env == self.env,
            r matches Err(e) ==> e is Lmdb,
    {
        let env = self.env.clone();
        match create_db(&env, name) {
            Ok(db) => Ok(LmdbStorage { env, db }),
            Err(e) => Err(StorageError::Lmdb(e)),
        }
    }
}

impl Storage for LmdbStorage {
    open spec fn models_contents(&self) -> bool {
        false
    }

    open spec fn infallible(&self) -> bool {
        false
    }

    closed spec fn contents(&self) -> Map<Seq<u8>, Seq<u8>> {
        Map::empty()
    }

    open spec fn well_formed(&self) -> bool {
        true
    }

    /// Looks `key` up in a read-only transaction; errors are LMDB's.
    fn get(&self, key: &[u8]) -> (r: Result<Option<Vec<u8>>, StorageError>)
        ensures
            r matches Err(e) ==> e is Lmdb,
    {
        let txn = match begin_ro_txn(&self.env) {
            Ok(t) => t,
            Err(e) => return Err(StorageError::Lmdb(e)),
        };
        lookup_outcome(txn_get(&txn, self.db, key))
    }

    /// Puts in a transaction of its own, committed before returning; errors
    /// are LMDB's.
    fn put(&mut self, key: &[u8], value: &[u8]) -> (r: Result<(), StorageError>)
        ensures
            r matches Err(e) ==> e is Lmdb,
    {
        let mut txn = match begin_rw_txn(&self.env) {
            Ok(t) => t,
            Err(e) => return Err(StorageError::Lmdb(e)),
        };
        match txn_put(&mut txn, self.db, key, value, write_flags_empty()) {
            Ok(()) => {},
            Err(e) => return Err(StorageError::Lmdb(e)),
        }
        match txn_commit(txn) {
            Ok(()) => Ok(()),
            Err(e) => Err(StorageError::Lmdb(e)),
        }
    }

    /// Deletes `key`; a key that is not there is no error. Errors are
    /// LMDB's.
    fn delete(&mut self, key: &[u8]) -> (r: Result<(), StorageError>)
        ensures
            r matches Err(e) ==> e is Lmdb,
    {
        let mut txn = match begin_rw_txn(&self.env) {
            Ok(t) => t,
            Err(e) => return Err(StorageError::Lmdb(e)),
        };
        match tolerate_missing(txn_del(&mut txn, self.db, key)) {
            Ok(()) => {},
            Err(e) => return Err(StorageError::Lmdb(e)),
        }
        match txn_commit(txn) {
            Ok(()) => Ok(()),
            Err(e) => Err(StorageError::Lmdb(e)),
        }
    }

    /// Inserts `value` under `key` only where the key is absent, atomically
    /// in one transaction (LMDB's no-overwrite write): `Ok(true)` when
    /// inserted, `Ok(false)` when the key was already there.
    /// Errors are LMDB's.
    fn put_if_absent(&mut self, key: &[u8], value: &[u8]) -> (r: Result<bool, StorageError>)
        ensures
            r matches Err(e) ==> e is Lmdb,
    {
        let mut txn = match begin_rw_txn(&self.env) {
            Ok(t) => t,
            Err(e) => return Err(StorageError::Lmdb(e)),
        };
        let put = txn_put(&mut txn, self.db, key, value, write_flags_no_overwrite());
        let committed = match &put {
            Ok(()) => Some(txn_commit(txn)),
            Err(e) => {
                if is_key_exist(e) {
                    txn_abort(txn);
                }
                None
            },
        };
        insert_outcome(put, committed)
    }
}

} // verus!
