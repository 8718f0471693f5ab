//! Trusted boundary around the embedded key-value store.
//!
//! The store holds four sorted string-to-string tables.  Each table's
//! contents are named by an uninterpreted map from keys to values, both
//! viewed as character sequences.  A write transaction carries its own
//! pending view of the four tables; `commit` publishes that view to the
//! database, and dropping a transaction without committing leaves the
//! database untouched.

use crate::keys::scan_result;
use redb::ReadableTable;
use vstd::prelude::*;

verus! {

#[verifier::external_type_specification]
#[verifier::external_body]
pub struct ExDatabase(redb::Database);

#[verifier::external_type_specification]
#[verifier::external_body]
pub struct ExWriteTransaction(redb::WriteTransaction);

/// Contents of the voting table of the committed database state.
pub uninterp spec fn voting_table(db: redb::Database) -> Map<Seq<char>, Seq<char>>;

/// Contents of the vote-dialog table of the committed database state.
pub uninterp spec fn dialog_table(db: redb::Database) -> Map<Seq<char>, Seq<char>>;

/// Contents of the custom-id table of the committed database state.
pub uninterp spec fn custom_id_table(db: redb::Database) -> Map<Seq<char>, Seq<char>>;

/// Contents of the voting/custom-id index table of the committed database state.
pub uninterp spec fn index_table(db: redb::Database) -> Map<Seq<char>, Seq<char>>;

/// Pending contents of the voting table inside a write transaction.
pub uninterp spec fn txn_voting(t: redb::WriteTransaction) -> Map<Seq<char>, Seq<char>>;

/// Pending contents of the vote-dialog table inside a write transaction.
pub uninterp spec fn txn_dialog(t: redb::WriteTransaction) -> Map<Seq<char>, Seq<char>>;

/// Pending contents of the custom-id table inside a write transaction.
pub uninterp spec fn txn_custom(t: redb::WriteTransaction) -> Map<Seq<char>, Seq<char>>;

/// Pending contents of the voting/custom-id index table inside a write transaction.
pub uninterp spec fn txn_index(t: redb::WriteTransaction) -> Map<Seq<char>, Seq<char>>;

/// All four pending table views of a transaction agree with the given maps.
pub open spec fn txn_tables(
    t: redb::WriteTransaction,
    v: Map<Seq<char>, Seq<char>>,
    d: Map<Seq<char>, Seq<char>>,
    c: Map<Seq<char>, Seq<char>>,
    i: Map<Seq<char>, Seq<char>>,
) -> bool {
    &&& txn_voting(t) == v
    &&& txn_dialog(t) == d
    &&& txn_custom(t) == c
    &&& txn_index(t) == i
}

/// All four committed table views of a database agree with the given maps.
pub open spec fn db_tables(
    db: redb::Database,
    v: Map<Seq<char>, Seq<char>>,
    d: Map<Seq<char>, Seq<char>>,
    c: Map<Seq<char>, Seq<char>>,
    i: Map<Seq<char>, Seq<char>>,
) -> bool {
    &&& voting_table(db) == v
    &&& dialog_table(db) == d
    &&& custom_id_table(db) == c
    &&& index_table(db) == i
}

/// Relies on redb's `Database::create`: opens (creating if absent) the
/// single-file store at `path`.  Nothing is assumed about the tables of the
/// opened store; they hold whatever the file held.
#[verifier::external_body]
pub(crate) fn open_database(path: &str) -> (r: Result<redb::Database, String>) {
    match redb::Database::create(path) {
        Ok(db) => Ok(db),
        Err(e) => Err(e.to_string()),
    }
}

/// Relies on redb's `Database::begin_write`: a fresh write transaction sees
/// exactly the committed state of every table.
#[verifier::external_body]
pub(crate) fn begin_txn(db: &redb::Database) -> (r: Result<redb::WriteTransaction, String>)
    ensures
        match r {
            Ok(t) => txn_tables(
                t,
                voting_table(*db),
                dialog_table(*db),
                custom_id_table(*db),
                index_table(*db),
            ),
            Err(_) => true,
        },
{
    match db.begin_write() {
        Ok(t) => Ok(t),
        Err(e) => Err(e.to_string()),
    }
}

/// Relies on redb's `WriteTransaction::commit`: on success the committed
/// state becomes the transaction's pending state, atomically for all tables.
/// On failure the commit was still all-or-nothing, but redb warns that a
/// failed commit may nevertheless have become durable, so the contract
/// allows both outcomes.
#[verifier::external_body]
pub(crate) fn commit_txn(db: &mut redb::Database, t: redb::WriteTransaction) -> (r: Result<
    (),
    String,
>)
    ensures
        match r {
            Ok(()) => db_tables(
                *final(db),
                txn_voting(t),
                txn_dialog(t),
                txn_custom(t),
                txn_index(t),
            ),
            Err(_) => db_tables(
                *final(db),
                voting_table(*old(db)),
                dialog_table(*old(db)),
                custom_id_table(*old(db)),
                index_table(*old(db)),
            ) || db_tables(*final(db), txn_voting(t), txn_dialog(t), txn_custom(t), txn_index(t)),
        },
{
    match t.commit() {
        Ok(()) => Ok(()),
        Err(e) => Err(e.to_string()),
    }
}

/// Relies on redb's `Table::get` on the voting table: returns the value
/// stored at the key, or nothing if the key is absent.
#[verifier::external_body]
pub(crate) fn txn_voting_get(t: &redb::WriteTransaction, key: &str) -> (r: Result<
    Option<String>,
    String,
>)
    ensures
        match r {
            Ok(Some(v)) => txn_voting(*t).contains_key(key@) && txn_voting(*t)[key@] == v@,
            Ok(None) => !txn_voting(*t).contains_key(key@),
            Err(_) => true,
        },
{
    let table = t.open_table(redb::TableDefinition::<&str, &str>::new("voting")).map_err(|e| e.to_string())?;
    let res = table.get(key).map_err(|e| e.to_string())?;
    Ok(res.map(|g| g.value().to_string()))
}

/// Relies on redb's `Table::insert` on the voting table: stores the value at
/// the key, replacing any previous value; no other table is touched.
#[verifier::external_body]
pub(crate) fn txn_voting_insert(
    t: &mut redb::WriteTransaction,
    key: &str,
    value: &str,
) -> (r: Result<(), String>)
    ensures
        r is Ok ==> txn_tables(
            *final(t),
            txn_voting(*old(t)).insert(key@, value@),
            txn_dialog(*old(t)),
            txn_custom(*old(t)),
            txn_index(*old(t)),
        ),
{
    let mut table = t.open_table(redb::TableDefinition::<&str, &str>::new("voting")).map_err(|e| e.to_string())?;
    table.insert(key, value).map_err(|e| e.to_string())?;
    Ok(())
}

/// Relies on redb's `Table::get` on the vote-dialog table.
#[verifier::external_body]
pub(crate) fn txn_dialog_get(t: &redb::WriteTransaction, key: &str) -> (r: Result<
    Option<String>,
    String,
>)
    ensures
        match r {
            Ok(Some(v)) => txn_dialog(*t).contains_key(key@) && txn_dialog(*t)[key@] == v@,
            Ok(None) => !txn_dialog(*t).contains_key(key@),
            Err(_) => true,
        },
{
    let table = t.open_table(redb::TableDefinition::<&str, &str>::new("voting_dialog")).map_err(|e| e.to_string())?;
    let res = table.get(key).map_err(|e| e.to_string())?;
    Ok(res.map(|g| g.value().to_string()))
}

/// Relies on redb's `Table::insert` on the vote-dialog table.
#[verifier::external_body]
pub(crate) fn txn_dialog_insert(
    t: &mut redb::WriteTransaction,
    key: &str,
    value: &str,
) -> (r: Result<(), String>)
    ensures
        r is Ok ==> txn_tables(
            *final(t),
            txn_voting(*old(t)),
            txn_dialog(*old(t)).insert(key@, value@),
            txn_custom(*old(t)),
            txn_index(*old(t)),
        ),
{
    let mut table = t.open_table(redb::TableDefinition::<&str, &str>::new("voting_dialog")).map_err(|e| e.to_string())?;
    table.insert(key, value).map_err(|e| e.to_string())?;
    Ok(())
}

/// Relies on redb's `Table::remove` on the vote-dialog table: removes the
/// key if present; removing an absent key succeeds and changes nothing.
#[verifier::external_body]
pub(crate) fn txn_dialog_remove(t: &mut redb::WriteTransaction, key: &str) -> (r: Result<
    (),
    String,
>)
    ensures
        r is Ok ==> txn_tables(
            *final(t),
            txn_voting(*old(t)),
            txn_dialog(*old(t)).remove(key@),
            txn_custom(*old(t)),
            txn_index(*old(t)),
        ),
{
    let mut table = t.open_table(redb::TableDefinition::<&str, &str>::new("voting_dialog")).map_err(|e| e.to_string())?;
    table.remove(key).map_err(|e| e.to_string())?;
    Ok(())
}

/// Relies on redb's `Table::range` on the vote-dialog table: ascending
/// iteration over all entries at keys from `start` on.  redb orders string
/// keys by their bytes, which on UTF-8 text agrees with the character order
/// used in the specification.
#[verifier::external_body]
pub(crate) fn txn_dialog_scan_from(t: &redb::WriteTransaction, start: &str) -> (r: Result<
    Vec<(String, String)>,
    String,
>)
    ensures
        match r {
            Ok(es) => scan_result(txn_dialog(*t), start@, es.deep_view()),
            Err(_) => true,
        },
{
    let table = t.open_table(redb::TableDefinition::<&str, &str>::new("voting_dialog")).map_err(|e| e.to_string())?;
    let range = table.range(start..).map_err(|e| e.to_string())?;
    let mut out: Vec<(String, String)> = Vec::new();
    for item in range {
        let (k, v) = item.map_err(|e| e.to_string())?;
        out.push((k.value().to_string(), v.value().to_string()));
    }
    Ok(out)
}

/// Relies on redb's `Table::get` on the custom-id table.
#[verifier::external_body]
pub(crate) fn txn_custom_get(t: &redb::WriteTransaction, key: &str) -> (r: Result<
    Option<String>,
    String,
>)
    ensures
        match r {
            Ok(Some(v)) => txn_custom(*t).contains_key(key@) && txn_custom(*t)[key@] == v@,
            Ok(None) => !txn_custom(*t).contains_key(key@),
            Err(_) => true,
        },
{
    let table = t.open_table(redb::TableDefinition::<&str, &str>::new("custom_id")).map_err(|e| e.to_string())?;
    let res = table.get(key).map_err(|e| e.to_string())?;
    Ok(res.map(|g| g.value().to_string()))
}

/// Relies on redb's `Table::insert` on the custom-id table.
#[verifier::external_body]
pub(crate) fn txn_custom_insert(
    t: &mut redb::WriteTransaction,
    key: &str,
    value: &str,
) -> (r: Result<(), String>)
    ensures
        r is Ok ==> txn_tables(
            *final(t),
            txn_voting(*old(t)),
            txn_dialog(*old(t)),
            txn_custom(*old(t)).insert(key@, value@),
            txn_index(*old(t)),
        ),
{
    let mut table = t.open_table(redb::TableDefinition::<&str, &str>::new("custom_id")).map_err(|e| e.to_string())?;
    table.insert(key, value).map_err(|e| e.to_string())?;
    Ok(())
}

/// Relies on redb's `Table::remove` on the custom-id table.
#[verifier::external_body]
pub(crate) fn txn_custom_remove(t: &mut redb::WriteTransaction, key: &str) -> (r: Result<
    (),
    String,
>)
    ensures
        r is Ok ==> txn_tables(
            *final(t),
            txn_voting(*old(t)),
            txn_dialog(*old(t)),
            txn_custom(*old(t)).remove(key@),
            txn_index(*old(t)),
        ),
{
    let mut table = t.open_table(redb::TableDefinition::<&str, &str>::new("custom_id")).map_err(|e| e.to_string())?;
    table.remove(key).map_err(|e| e.to_string())?;
    Ok(())
}

/// Relies on redb's `Table::insert` on the voting/custom-id index table.
#[verifier::external_body]
pub(crate) fn txn_index_insert(
    t: &mut redb::WriteTransaction,
    key: &str,
    value: &str,
) -> (r: Result<(), String>)
    ensures
        r is Ok ==> txn_tables(
            *final(t),
            txn_voting(*old(t)),
            txn_dialog(*old(t)),
            txn_custom(*old(t)),
            txn_index(*old(t)).insert(key@, value@),
        ),
{
    let mut table = t.open_table(redb::TableDefinition::<&str, &str>::new("voting_customid_index")).map_err(|e| e.to_string())?;
    table.insert(key, value).map_err(|e| e.to_string())?;
    Ok(())
}

/// Relies on redb's `Table::remove` on the voting/custom-id index table.
#[verifier::external_body]
pub(crate) fn txn_index_remove(t: &mut redb::WriteTransaction, key: &str) -> (r: Result<
    (),
    String,
>)
    ensures
        r is Ok ==> txn_tables(
            *final(t),
            txn_voting(*old(t)),
            txn_dialog(*old(t)),
            txn_custom(*old(t)),
            txn_index(*old(t)).remove(key@),
        ),
{
    let mut table = t.open_table(redb::TableDefinition::<&str, &str>::new("voting_customid_index")).map_err(|e| e.to_string())?;
    table.remove(key).map_err(|e| e.to_string())?;
    Ok(())
}

/// Relies on redb's `Table::range` on the voting/custom-id index table; see
/// the vote-dialog scan above for the ordering assumption.
#[verifier::external_body]
pub(crate) fn txn_index_scan_from(t: &redb::WriteTransaction, start: &str) -> (r: Result<
    Vec<(String, String)>,
    String,
>)
    ensures
        match r {
            Ok(es) => scan_result(txn_index(*t), start@, es.deep_view()),
            Err(_) => true,
        },
{
    let table = t.open_table(redb::TableDefinition::<&str, &str>::new("voting_customid_index")).map_err(|e| e.to_string())?;
    let range = table.range(start..).map_err(|e| e.to_string())?;
    let mut out: Vec<(String, String)> = Vec::new();
    for item in range {
        let (k, v) = item.map_err(|e| e.to_string())?;
        out.push((k.value().to_string(), v.value().to_string()));
    }
    Ok(out)
}

} // verus!
