//! The calls this library makes into the `lmdb` crate, each behind a
//! trusted item. What LMDB answers depends on what is on disk, so none of
//! these promises more than the crate's source shows of every outcome.

use vstd::prelude::*;

verus! {

#[verifier::external_type_specification]
#[verifier::external_body]
pub struct ExLmdbError(lmdb::Error);

#[verifier::external_type_specification]
#[verifier::external_body]
pub struct ExEnvironment(lmdb::Environment);

#[verifier::external_type_specification]
#[verifier::external_body]
pub struct ExEnvironmentBuilder(lmdb::EnvironmentBuilder);

#[verifier::external_type_specification]
#[verifier::external_body]
pub struct ExDatabase(lmdb::Database);

#[verifier::external_type_specification]
#[verifier::external_body]
pub struct ExWriteFlags(lmdb::WriteFlags);

#[verifier::external_type_specification]
#[verifier::external_body]
pub struct ExRwTransaction<'env>(lmdb::RwTransaction<'env>);

#[verifier::external_type_specification]
#[verifier::external_body]
pub struct ExRoTransaction<'env>(lmdb::RoTransaction<'env>);

/// LMDB's return code for a key/data pair that is not in the database.
pub const MDB_NOTFOUND: i32 = -30798;

/// LMDB's return code for a key that is already in the database.
pub const MDB_KEYEXIST: i32 = -30799;

/// `lmdb::Environment::new`: a builder with no options set.
#[verifier::external_body]
pub(crate) fn env_builder() -> lmdb::EnvironmentBuilder {
    lmdb::Environment::new()
}

/// `lmdb::EnvironmentBuilder::set_max_dbs`: records the maximum number of
/// named databases; it cannot fail.
#[verifier::external_body]
pub(crate) fn set_max_dbs(builder: &mut lmdb::EnvironmentBuilder, max_dbs: u32) {
    builder.set_max_dbs(max_dbs);
}

/// `lmdb::EnvironmentBuilder::set_map_size`: records the size of the memory
/// map; it cannot fail.
#[verifier::external_body]
pub(crate) fn set_map_size(builder: &mut lmdb::EnvironmentBuilder, size: usize) {
    builder.set_map_size(size);
}

/// `lmdb::EnvironmentBuilder::open` on the directory `path`. Whether it
/// opens depends on the file system, so nothing is promised of the outcome.
#[verifier::external_body]
pub(crate) fn open_env(
    builder: &lmdb::EnvironmentBuilder,
    path: &str,
) -> Result<lmdb::Environment, lmdb::Error> {
    builder.open(std::path::Path::new(path))
}

/// `lmdb::Environment::create_db` for the named database `name`, with no
/// flags. The crate panics on a name that holds a NUL character, so such a
/// name is refused by `requires`.
#[verifier::external_body]
pub(crate) fn create_db(env: &lmdb::Environment, name: &str) -> Result<lmdb::Database, lmdb::Error>
    requires
        !name@.contains('\0'),
{
    env.create_db(Some(name), lmdb::DatabaseFlags::empty())
}

/// `lmdb::Environment::begin_rw_txn`.
#[verifier::external_body]
pub(crate) fn begin_rw_txn<'env>(
    env: &'env lmdb::Environment,
) -> Result<lmdb::RwTransaction<'env>, lmdb::Error> {
    env.begin_rw_txn()
}

/// `lmdb::Environment::begin_ro_txn`.
#[verifier::external_body]
pub(crate) fn begin_ro_txn<'env>(
    env: &'env lmdb::Environment,
) -> Result<lmdb::RoTransaction<'env>, lmdb::Error> {
    env.begin_ro_txn()
}

/// `lmdb::WriteFlags::empty`: the default write behaviour, which replaces an
/// existing value.
#[verifier::external_body]
pub(crate) fn write_flags_empty() -> lmdb::WriteFlags {
    lmdb::WriteFlags::empty()
}

/// `lmdb::WriteFlags::NO_OVERWRITE`: a put that fails with `KeyExist` where
/// the key is already present.
#[verifier::external_body]
pub(crate) fn write_flags_no_overwrite() -> lmdb::WriteFlags {
    lmdb::WriteFlags::NO_OVERWRITE
}

/// `lmdb::RwTransaction::put` of `value` under `key` in `db`.
#[verifier::external_body]
pub(crate) fn txn_put(
    txn: &mut lmdb::RwTransaction,
    db: lmdb::Database,
    key: &[u8],
    value: &[u8],
    flags: lmdb::WriteFlags,
) -> Result<(), lmdb::Error> {
    txn.put(db, &key, &value, flags)
}

/// `lmdb::RwTransaction::del` of `key` in `db`, all its data items.
#[verifier::external_body]
pub(crate) fn txn_del(
    txn: &mut lmdb::RwTransaction,
    db: lmdb::Database,
    key: &[u8],
) -> Result<(), lmdb::Error> {
    txn.del(db, &key, None)
}

/// `lmdb::Transaction::commit` of a read-write transaction.
#[verifier::external_body]
pub(crate) fn txn_commit(txn: lmdb::RwTransaction) -> Result<(), lmdb::Error> {
    lmdb::Transaction::commit(txn)
}

/// `lmdb::Transaction::abort` of a read-write transaction.
#[verifier::external_body]
pub(crate) fn txn_abort(txn: lmdb::RwTransaction) {
    lmdb::Transaction::abort(txn)
}

/// `lmdb::Transaction::get` of `key` in `db`, the value copied out of the
/// memory map.
#[verifier::external_body]
pub(crate) fn txn_get(
    txn: &lmdb::RoTransaction,
    db: lmdb::Database,
    key: &[u8],
) -> Result<Vec<u8>, lmdb::Error> {
    lmdb::Transaction::get(txn, db, &key).map(|v| v.to_vec())
}

/// The raw LMDB return code of an error, as `lmdb::Error::to_err_code`
/// gives it: a function of the error alone.
pub uninterp spec fn lmdb_error_code(e: lmdb::Error) -> i32;

/// `lmdb::Error::to_err_code`: the raw LMDB return code of an error.
#[verifier::external_body]
pub(crate) fn error_code(e: &lmdb::Error) -> (code: i32)
    ensures
        code == lmdb_error_code(*e),
{
    e.to_err_code()
}

/// Whether an LMDB error is `NotFound`.
pub fn is_not_found(e: &lmdb::Error) -> (r: bool)
    ensures
        r == (lmdb_error_code(*e) == MDB_NOTFOUND),
{
    error_code(e) == MDB_NOTFOUND
}

/// Whether an LMDB error is `KeyExist`.
pub fn is_key_exist(e: &lmdb::Error) -> (r: bool)
    ensures
        r == (lmdb_error_code(*e) == MDB_KEYEXIST),
{
    error_code(e) == MDB_KEYEXIST
}

} // verus!
