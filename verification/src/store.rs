//! The posting store: an ordered key-to-bytes database of `heed`, written through
//! one exclusive write transaction.
//!
//! Verus cannot look inside a transaction. What a database holds, as the
//! transaction sees it, is named by [`store_entries`]; every call into `heed` goes
//! through one of the small functions below, whose contracts are taken on trust
//! from the sources of `heed` and of the LMDB library beneath it.

use vstd::prelude::*;
use crate::error::MilliError;
use crate::keys::key_lt;

verus! {

/// `heed::Env`, an open environment; opaque here.
#[verifier::external_type_specification]
#[verifier::external_body]
pub struct ExEnv(heed::Env);

/// `heed::PolyDatabase`, the handle of one database of an environment; opaque here.
#[verifier::external_type_specification]
#[verifier::external_body]
pub struct ExPolyDatabase(heed::PolyDatabase);

/// `heed::RwTxn`, a write transaction of an environment; opaque here.
#[verifier::external_type_specification]
#[verifier::external_body]
#[verifier::reject_recursive_types(T)]
pub struct ExRwTxn<'e, 'p, T>(heed::RwTxn<'e, 'p, T>);

/// `heed::Error`, what the store reports; opaque here.
#[verifier::external_type_specification]
#[verifier::external_body]
pub struct ExStoreError(heed::Error);

/// The entries of `database` as `txn` sees them, its own writes included.
pub uninterp spec fn store_entries(
    txn: heed::RwTxn<'static, 'static, ()>,
    database: heed::PolyDatabase,
) -> Map<Seq<u8>, Seq<u8>>;

/// The identity of an environment: `heed` goes by its address.
pub uninterp spec fn environment_id(env: heed::Env) -> usize;

/// The identity of the environment that `txn` writes to.
pub uninterp spec fn txn_environment(txn: heed::RwTxn<'static, 'static, ()>) -> usize;

/// The identity of the environment in which `database` was opened.
pub uninterp spec fn database_environment(database: heed::PolyDatabase) -> usize;

/// Whether `database` was opened in the environment that `txn` writes to. `heed`
/// panics when a database meets a transaction of another environment, so every
/// function that touches the store asks for this. [`write_txn`] and
/// [`create_database`] on one environment give a pair for which it holds.
pub open spec fn same_environment(
    txn: heed::RwTxn<'static, 'static, ()>,
    database: heed::PolyDatabase,
) -> bool {
    txn_environment(txn) == database_environment(database)
}

/// Whether a database may bear this name: `heed` panics on a name that holds
/// a zero character.
pub open spec fn database_name(name: Seq<char>) -> bool {
    forall|i: int| 0 <= i < name.len() ==> name[i] != '\0'
}

/// `Env::write_txn`: a write transaction of this environment.
#[verifier::external_body]
pub(crate) fn env_write_txn<'e>(env: &'e heed::Env) -> (r: Result<
    heed::RwTxn<'e, 'e>,
    heed::Error,
>)
    ensures
        r matches Ok(txn) ==> txn_environment(txn) == environment_id(*env),
{
    env.write_txn()
}

/// `Env::create_poly_database_with_txn`: the database of this name, made
/// within the transaction if the environment had none. The handle is of this
/// environment. The transaction has to be one of this environment, and the
/// name is turned into a C string, which panics on a zero character.
#[verifier::external_body]
pub(crate) fn env_create_poly_database(
    env: &heed::Env,
    name: &str,
    wtxn: &mut heed::RwTxn,
) -> (r: Result<heed::PolyDatabase, heed::Error>)
    requires
        txn_environment(*old(wtxn)) == environment_id(*env),
        database_name(name@),
    ensures
        txn_environment(*final(wtxn)) == txn_environment(*old(wtxn)),
        r matches Ok(database) ==> database_environment(database) == environment_id(*env),
{
    env.create_poly_database_with_txn(Some(name), wtxn)
}

/// Opens a write transaction of `env`. The call waits for as long as another
/// write transaction of the environment is open.
pub fn write_txn<'e>(env: &'e heed::Env) -> (r: Result<heed::RwTxn<'e, 'e>, MilliError>)
    ensures
        match r {
            Ok(txn) => txn_environment(txn) == environment_id(*env),
            Err(MilliError::Store(_)) => true,
            Err(_) => false,
        },
{
    match env_write_txn(env) {
        Ok(txn) => Ok(txn),
        Err(error) => Err(MilliError::Store(error)),
    }
}

/// Opens the database `name` of `env` within a write transaction of `env`,
/// making it where the environment has none of that name.
pub fn create_database(env: &heed::Env, wtxn: &mut heed::RwTxn, name: &str) -> (r: Result<
    heed::PolyDatabase,
    MilliError,
>)
    requires
        txn_environment(*old(wtxn)) == environment_id(*env),
        database_name(name@),
    ensures
        txn_environment(*final(wtxn)) == txn_environment(*old(wtxn)),
        match r {
            Ok(database) => database_environment(database) == environment_id(*env),
            Err(MilliError::Store(_)) => true,
            Err(_) => false,
        },
{
    match env_create_poly_database(env, name, wtxn) {
        Ok(database) => Ok(database),
        Err(error) => Err(MilliError::Store(error)),
    }
}

/// `PolyDatabase::is_empty`: whether the database holds no entry.
#[verifier::external_body]
pub(crate) fn store_is_empty(wtxn: &heed::RwTxn, database: heed::PolyDatabase) -> (r: Result<
    bool,
    heed::Error,
>)
    requires
        same_environment(*wtxn, database),
    ensures
        r matches Ok(empty) ==> empty == (store_entries(*wtxn, database).dom()
            =~= Set::<Seq<u8>>::empty()),
{
    database.is_empty(wtxn)
}

/// `PolyDatabase::put`: writes `value` at `key`, over whatever was stored there.
#[verifier::external_body]
pub(crate) fn store_put(
    wtxn: &mut heed::RwTxn,
    database: heed::PolyDatabase,
    key: &[u8],
    value: &[u8],
) -> (r: Result<(), heed::Error>)
    requires
        same_environment(*old(wtxn), database),
    ensures
        txn_environment(*final(wtxn)) == txn_environment(*old(wtxn)),
        r.is_ok() ==> store_entries(*final(wtxn), database) == store_entries(
            *old(wtxn),
            database,
        ).insert(key@, value@),
{
    database.put::<_, heed::types::ByteSlice, heed::types::ByteSlice>(wtxn, key, value)
}

/// `PolyDatabase::iter_mut` and `RwIter::append` on the cursor it gives: writes the
/// entry behind the last one. It succeeds only for a key greater than every
/// stored key; for any other key the store answers with an error.
#[verifier::external_body]
pub(crate) fn store_append(
    wtxn: &mut heed::RwTxn,
    database: heed::PolyDatabase,
    key: &[u8],
    value: &[u8],
) -> (r: Result<(), heed::Error>)
    requires
        same_environment(*old(wtxn), database),
    ensures
        txn_environment(*final(wtxn)) == txn_environment(*old(wtxn)),
        r.is_ok() ==> store_entries(*final(wtxn), database) == store_entries(
            *old(wtxn),
            database,
        ).insert(key@, value@),
        r.is_ok() ==> forall|stored: Seq<u8>| #[trigger]
            store_entries(*old(wtxn), database).dom().contains(stored) ==> key_lt(stored, key@),
{
    database.iter_mut::<_, heed::types::ByteSlice, heed::types::ByteSlice>(wtxn)?.append(key, value)
}

/// `PolyDatabase::prefix_iter_mut` and the first `next` of the iterator it gives,
/// copied out of the store: the entry with the least key that starts with
/// `prefix`, or `None` where no key starts with it. Nothing is written.
///
/// The iterator seeks the first key that is not below `prefix` and yields it if
/// it starts with `prefix`. Every key that starts with `prefix` is not below it,
/// so that entry is the least of them, and where it does not start with `prefix`
/// no key does.
#[verifier::external_body]
pub(crate) fn store_first_with_prefix(
    wtxn: &mut heed::RwTxn,
    database: heed::PolyDatabase,
    prefix: &[u8],
) -> (r: Result<Option<(Vec<u8>, Vec<u8>)>, heed::Error>)
    requires
        same_environment(*old(wtxn), database),
    ensures
        txn_environment(*final(wtxn)) == txn_environment(*old(wtxn)),
        store_entries(*final(wtxn), database) == store_entries(*old(wtxn), database),
        match r {
            Ok(Some((key, value))) => {
                &&& store_entries(*old(wtxn), database).contains_pair(key@, value@)
                &&& prefix@.is_prefix_of(key@)
                &&& forall|stored: Seq<u8>| #[trigger]
                    store_entries(*old(wtxn), database).dom().contains(stored)
                        && prefix@.is_prefix_of(stored) ==> !key_lt(stored, key@)
            },
            Ok(None) => forall|stored: Seq<u8>| #[trigger]
                store_entries(*old(wtxn), database).dom().contains(stored)
                    ==> !prefix@.is_prefix_of(stored),
            Err(_) => true,
        },
{
    let mut iter = database.prefix_iter_mut::<_, heed::types::ByteSlice, heed::types::ByteSlice>(wtxn, prefix)?;
    let first = iter.next().transpose()?;
    Ok(first.map(|(key, value)| (key.to_vec(), value.to_vec())))
}

/// `PolyDatabase::prefix_iter_mut`, one `next`, and `RwPrefix::put_current`: puts the
/// cursor on the first key that starts with `key` and replaces that entry in
/// place with `key` and `value`.
///
/// The store wants the key handed to `put_current` to be the key under the
/// cursor. `key` is the least of the keys that start with `key`, so the cursor
/// stands on it exactly when it is stored, which is what `requires` asks. Under
/// a cursor that stands on an entry LMDB replaces that entry and does not
/// answer "not found", so the flag that `heed` returns is `true` and is not
/// looked at.
#[verifier::external_body]
pub(crate) fn store_put_current(
    wtxn: &mut heed::RwTxn,
    database: heed::PolyDatabase,
    key: &[u8],
    value: &[u8],
) -> (r: Result<bool, heed::Error>)
    requires
        same_environment(*old(wtxn), database),
        store_entries(*old(wtxn), database).dom().contains(key@),
    ensures
        txn_environment(*final(wtxn)) == txn_environment(*old(wtxn)),
        r.is_ok() ==> store_entries(*final(wtxn), database) == store_entries(
            *old(wtxn),
            database,
        ).insert(key@, value@),
{
    let mut iter = database.prefix_iter_mut::<_, heed::types::ByteSlice, heed::types::ByteSlice>(wtxn, key)?;
    let _ = iter.next().transpose()?;
    iter.put_current(key, value)
}

} // verus!
