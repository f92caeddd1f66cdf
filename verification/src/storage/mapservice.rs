//! One LMDB environment holding several named maps (named databases).

use vstd::prelude::*;
use super::StorageError;
use super::lmdb_store::LmdbStorage;
use crate::lmdb_env::{env_builder, open_env, set_max_dbs};
use std::sync::Arc;

verus! {

/// Holds a single LMDB environment and creates named maps in it.
pub struct MapService {
    env: Arc<lmdb::Environment>,
}

impl MapService {
    /// The environment this service holds.
    pub closed spec fn environment(&self) -> Arc<lmdb::Environment> {
        self.env
    }

    /// Opens the environment in the directory `path`, allowing up to
    /// `max_maps` named maps.
    pub fn new(path: &str, max_maps: u32) -> (r: Result<Self, StorageError>)
        ensures
            r matches Err(e) ==> e is Lmdb,
    {
        let mut builder = env_builder();
        set_max_dbs(&mut builder, max_maps);
        match open_env(&builder, path) {
            Ok(env) => Ok(MapService { env: Arc::new(env) }),
            Err(e) => Err(StorageError::Lmdb(e)),
        }
    }

    /// The storage of the map `name`, sharing this service's environment.
    pub fn get_map(&self, name: &str) -> (r: Result<LmdbStorage, StorageError>)
        requires
            !name@.contains('\0'),
        ensures
            r matches Ok(s) ==> s.env == self.environment(),
            r matches Err(e) ==> e is Lmdb,
    {
        LmdbStorage::from_env(self.env.clone(), name)
    }
}

} // verus!
