//! The trusted boundary to the embedded transactional table store
//! (redb).  Everything else in the crate is verified against the
//! contracts stated here.
//!
//! The store holds four tables: `ranges` (u16 -> range value),
//! `ranges_available` (u16 -> unit, the available set), `jobs` (u64 ->
//! job value) and `jobs_free_ids` (u64 -> unit, the recycled ids).
//! Their contents are named by the uninterpreted functions below, on
//! the durable database and on an open write transaction; `redb`
//! iterates, pops and reports first/last in ascending numeric key
//! order, which is what the snapshot contracts state.

use crate::state::{is_min_of, set_nonempty, JobVal, RangeVal, StoreView};
use vstd::prelude::*;

verus! {

#[verifier::external_type_specification]
#[verifier::external_body]
pub struct ExDatabase(redb::Database);

#[verifier::external_type_specification]
#[verifier::external_body]
pub struct ExWriteTransaction(redb::WriteTransaction);

#[verifier::external_type_specification]
#[verifier::external_body]
pub struct ExReadTransaction(redb::ReadTransaction);

#[verifier::external_type_specification]
#[verifier::external_body]
pub struct ExRedbError(redb::Error);

/// Contents of the `ranges` table as the durable store holds them.
pub uninterp spec fn db_ranges(db: redb::Database) -> Map<u16, RangeVal>;

/// Contents of the `ranges_available` table (the available set).
pub uninterp spec fn db_avail(db: redb::Database) -> Set<u16>;

/// Contents of the `jobs` table.
pub uninterp spec fn db_jobs(db: redb::Database) -> Map<u64, JobVal>;

/// Contents of the `jobs_free_ids` table (the recycled ids).
pub uninterp spec fn db_free(db: redb::Database) -> Set<u64>;

/// Identity of a database, to tie a transaction to the store it was
/// begun on.
pub uninterp spec fn db_token(db: redb::Database) -> int;

/// Contents of the `ranges` table as an open write transaction sees
/// them.
pub uninterp spec fn txn_ranges(t: redb::WriteTransaction) -> Map<u16, RangeVal>;

/// Contents of the `ranges_available` table inside a write transaction.
pub uninterp spec fn txn_avail(t: redb::WriteTransaction) -> Set<u16>;

/// Contents of the `jobs` table inside a write transaction.
pub uninterp spec fn txn_jobs(t: redb::WriteTransaction) -> Map<u64, JobVal>;

/// Contents of the `jobs_free_ids` table inside a write transaction.
pub uninterp spec fn txn_free(t: redb::WriteTransaction) -> Set<u64>;

/// The database a write transaction was begun on.
pub uninterp spec fn txn_token(t: redb::WriteTransaction) -> int;

/// Contents of the `ranges` table in a read snapshot.
pub uninterp spec fn read_ranges(t: redb::ReadTransaction) -> Map<u16, RangeVal>;

/// The four table contents of the durable store, as one view.
pub open spec fn db_view(db: redb::Database) -> StoreView {
    StoreView { ranges: db_ranges(db), avail: db_avail(db), jobs: db_jobs(db), free: db_free(db) }
}

/// The four table contents seen by a write transaction, as one view.
pub open spec fn txn_view(t: redb::WriteTransaction) -> StoreView {
    StoreView {
        ranges: txn_ranges(t),
        avail: txn_avail(t),
        jobs: txn_jobs(t),
        free: txn_free(t),
    }
}

/// All four table contents are finite, as real tables are.
pub open spec fn view_finite(s: StoreView) -> bool {
    s.ranges.dom().finite() && s.avail.finite() && s.jobs.dom().finite() && s.free.finite()
}

/// Relies on redb's `Database::begin_write`: the transaction sees the
/// committed contents of every table, and opening it changes nothing
/// durable.
#[verifier::external_body]
pub(crate) fn begin_write(db: &mut redb::Database) -> (r: Result<
    redb::WriteTransaction,
    redb::Error,
>)
    ensures
        db_ranges(*final(db)) == db_ranges(*old(db)),
        db_avail(*final(db)) == db_avail(*old(db)),
        db_jobs(*final(db)) == db_jobs(*old(db)),
        db_free(*final(db)) == db_free(*old(db)),
        db_token(*final(db)) == db_token(*old(db)),
        r matches Ok(t) ==> {
            &&& txn_ranges(t) == db_ranges(*old(db))
            &&& txn_avail(t) == db_avail(*old(db))
            &&& txn_jobs(t) == db_jobs(*old(db))
            &&& txn_free(t) == db_free(*old(db))
            &&& txn_token(t) == db_token(*old(db))
            &&& view_finite(txn_view(t))
        },
{
    db.begin_write().map_err(redb::Error::from)
}

/// Relies on redb's `WriteTransaction::commit`: on success every
/// change of the transaction becomes durable at once.  On failure the
/// changes were applied atomically — fully or not at all — but may
/// already have become durable, so the store then holds either the
/// old contents or the transaction's contents, never a mixture.  The
/// `db` parameter is the database the transaction was begun on.
#[verifier::external_body]
pub(crate) fn txn_commit(db: &mut redb::Database, t: redb::WriteTransaction) -> (r: Result<
    (),
    redb::Error,
>)
    requires
        txn_token(t) == db_token(*old(db)),
    ensures
        db_token(*final(db)) == db_token(*old(db)),
        r matches Ok(_) ==> {
            &&& db_ranges(*final(db)) == txn_ranges(t)
            &&& db_avail(*final(db)) == txn_avail(t)
            &&& db_jobs(*final(db)) == txn_jobs(t)
            &&& db_free(*final(db)) == txn_free(t)
        },
        r matches Err(_) ==> {
            ||| {
                &&& db_ranges(*final(db)) == db_ranges(*old(db))
                &&& db_avail(*final(db)) == db_avail(*old(db))
                &&& db_jobs(*final(db)) == db_jobs(*old(db))
                &&& db_free(*final(db)) == db_free(*old(db))
            }
            ||| {
                &&& db_ranges(*final(db)) == txn_ranges(t)
                &&& db_avail(*final(db)) == txn_avail(t)
                &&& db_jobs(*final(db)) == txn_jobs(t)
                &&& db_free(*final(db)) == txn_free(t)
            }
        },
{
    let _ = &db;
    t.commit().map_err(redb::Error::from)
}

/// Relies on redb's `ReadableDatabase::begin_read`: an isolated
/// snapshot of the committed contents.
#[verifier::external_body]
pub(crate) fn begin_read(db: &redb::Database) -> (r: Result<redb::ReadTransaction, redb::Error>)
    ensures
        r matches Ok(t) ==> read_ranges(t) == db_ranges(*db) && read_ranges(t).dom().finite(),
{
    redb::ReadableDatabase::begin_read(db).map_err(redb::Error::from)
}

/// Relies on redb's `ReadableTable::iter`: every row of the `jobs`
/// table, in ascending id order.
#[verifier::external_body]
pub(crate) fn jobs_snapshot(t: &redb::WriteTransaction) -> (r: Result<
    Vec<(u64, JobVal)>,
    redb::Error,
>)
    ensures
        r matches Ok(v) ==> {
            &&& forall|i: int, j: int| 0 <= i < j < v@.len() ==> v@[i].0 < v@[j].0
            &&& forall|i: int|
                0 <= i < v@.len() ==> txn_jobs(*t).contains_pair(
                    (#[trigger] v@[i]).0,
                    v@[i].1,
                )
            &&& forall|k: u64| #[trigger]
                txn_jobs(*t).dom().contains(k) ==> exists|i: int|
                    0 <= i < v@.len() && (#[trigger] v@[i]).0 == k
        },
{
    let tbl = t.open_table(redb::TableDefinition::<u64, JobVal>::new("jobs"))?;
    let mut out: Vec<(u64, JobVal)> = Vec::new();
    for row in redb::ReadableTable::iter(&tbl)? {
        let (k, v) = row?;
        out.push((k.value(), v.value()));
    }
    Ok(out)
}

/// Relies on redb's `ReadableTable::get` on the `jobs` table.
#[verifier::external_body]
pub(crate) fn jobs_get(t: &redb::WriteTransaction, id: u64) -> (r: Result<
    Option<JobVal>,
    redb::Error,
>)
    ensures
        r matches Ok(o) ==> o == (if txn_jobs(*t).dom().contains(id) {
            Some(txn_jobs(*t)[id])
        } else {
            Option::<JobVal>::None
        }),
{
    let tbl = t.open_table(redb::TableDefinition::<u64, JobVal>::new("jobs"))?;
    let got = redb::ReadableTable::get(&tbl, id)?;
    Ok(got.map(|ag| ag.value()))
}

/// Relies on redb's `Table::insert` on the `jobs` table.
#[verifier::external_body]
pub(crate) fn jobs_insert(t: &mut redb::WriteTransaction, id: u64, v: JobVal) -> (r: Result<
    (),
    redb::Error,
>)
    ensures
        r matches Ok(_) ==> {
            &&& txn_jobs(*final(t)) == txn_jobs(*old(t)).insert(id, v)
            &&& txn_ranges(*final(t)) == txn_ranges(*old(t))
            &&& txn_avail(*final(t)) == txn_avail(*old(t))
            &&& txn_free(*final(t)) == txn_free(*old(t))
            &&& txn_token(*final(t)) == txn_token(*old(t))
        },
{
    let mut tbl = t.open_table(redb::TableDefinition::<u64, JobVal>::new("jobs"))?;
    tbl.insert(id, v)?;
    Ok(())
}

/// Relies on redb's `Table::remove` on the `jobs` table.
#[verifier::external_body]
pub(crate) fn jobs_remove(t: &mut redb::WriteTransaction, id: u64) -> (r: Result<
    (),
    redb::Error,
>)
    ensures
        r matches Ok(_) ==> {
            &&& txn_jobs(*final(t)) == txn_jobs(*old(t)).remove(id)
            &&& txn_ranges(*final(t)) == txn_ranges(*old(t))
            &&& txn_avail(*final(t)) == txn_avail(*old(t))
            &&& txn_free(*final(t)) == txn_free(*old(t))
            &&& txn_token(*final(t)) == txn_token(*old(t))
        },
{
    let mut tbl = t.open_table(redb::TableDefinition::<u64, JobVal>::new("jobs"))?;
    tbl.remove(id)?;
    Ok(())
}

/// Relies on redb's `Table::pop_first` on the `jobs_free_ids` table:
/// removes and returns the smallest key, or `None` on an empty table.
#[verifier::external_body]
pub(crate) fn free_pop_first(t: &mut redb::WriteTransaction) -> (r: Result<
    Option<u64>,
    redb::Error,
>)
    ensures
        r matches Ok(o) ==> {
            &&& txn_ranges(*final(t)) == txn_ranges(*old(t))
            &&& txn_avail(*final(t)) == txn_avail(*old(t))
            &&& txn_jobs(*final(t)) == txn_jobs(*old(t))
            &&& txn_token(*final(t)) == txn_token(*old(t))
            &&& match o {
                Some(m) => is_min_of(txn_free(*old(t)), m) && txn_free(*final(t)) == txn_free(
                    *old(t),
                ).remove(m),
                Option::None => !set_nonempty(txn_free(*old(t))) && txn_free(*final(t))
                    == txn_free(*old(t)),
            }
        },
{
    let mut tbl = t.open_table(redb::TableDefinition::<u64, ()>::new("jobs_free_ids"))?;
    let popped = tbl.pop_first()?;
    Ok(popped.map(|(k, _)| k.value()))
}

/// Relies on redb's `Table::insert` on the `jobs_free_ids` table.
#[verifier::external_body]
pub(crate) fn free_insert(t: &mut redb::WriteTransaction, id: u64) -> (r: Result<
    (),
    redb::Error,
>)
    ensures
        r matches Ok(_) ==> {
            &&& txn_free(*final(t)) == txn_free(*old(t)).insert(id)
            &&& txn_ranges(*final(t)) == txn_ranges(*old(t))
            &&& txn_avail(*final(t)) == txn_avail(*old(t))
            &&& txn_jobs(*final(t)) == txn_jobs(*old(t))
            &&& txn_token(*final(t)) == txn_token(*old(t))
        },
{
    let mut tbl = t.open_table(redb::TableDefinition::<u64, ()>::new("jobs_free_ids"))?;
    tbl.insert(id, ())?;
    Ok(())
}

/// Relies on redb's `ReadableTable::get` on the `ranges` table.
#[verifier::external_body]
pub(crate) fn ranges_get(t: &redb::WriteTransaction, id: u16) -> (r: Result<
    Option<RangeVal>,
    redb::Error,
>)
    ensures
        r matches Ok(o) ==> o == (if txn_ranges(*t).dom().contains(id) {
            Some(txn_ranges(*t)[id])
        } else {
            Option::<RangeVal>::None
        }),
{
    let tbl = t.open_table(redb::TableDefinition::<u16, RangeVal>::new("ranges"))?;
    let got = redb::ReadableTable::get(&tbl, id)?;
    Ok(got.map(|ag| ag.value()))
}

/// Relies on redb's `Table::insert` on the `ranges` table.
#[verifier::external_body]
pub(crate) fn ranges_insert(t: &mut redb::WriteTransaction, id: u16, v: RangeVal) -> (r: Result<
    (),
    redb::Error,
>)
    ensures
        r matches Ok(_) ==> {
            &&& txn_ranges(*final(t)) == txn_ranges(*old(t)).insert(id, v)
            &&& txn_avail(*final(t)) == txn_avail(*old(t))
            &&& txn_jobs(*final(t)) == txn_jobs(*old(t))
            &&& txn_free(*final(t)) == txn_free(*old(t))
            &&& txn_token(*final(t)) == txn_token(*old(t))
        },
{
    let mut tbl = t.open_table(redb::TableDefinition::<u16, RangeVal>::new("ranges"))?;
    tbl.insert(id, v)?;
    Ok(())
}

/// Relies on redb's `ReadableTable::iter`: every key of the
/// `ranges_available` table, in ascending order.
#[verifier::external_body]
pub(crate) fn avail_snapshot(t: &redb::WriteTransaction) -> (r: Result<Vec<u16>, redb::Error>)
    ensures
        r matches Ok(v) ==> {
            &&& forall|i: int, j: int| 0 <= i < j < v@.len() ==> v@[i] < v@[j]
            &&& forall|i: int| 0 <= i < v@.len() ==> txn_avail(*t).contains(#[trigger] v@[i])
            &&& forall|k: u16| #[trigger]
                txn_avail(*t).contains(k) ==> exists|i: int|
                    0 <= i < v@.len() && v@[i] == k
        },
{
    let tbl = t.open_table(redb::TableDefinition::<u16, ()>::new("ranges_available"))?;
    let mut out: Vec<u16> = Vec::new();
    for row in redb::ReadableTable::iter(&tbl)? {
        let (k, _) = row?;
        out.push(k.value());
    }
    Ok(out)
}

/// Relies on redb's `Table::insert` on the `ranges_available` table.
#[verifier::external_body]
pub(crate) fn avail_insert(t: &mut redb::WriteTransaction, id: u16) -> (r: Result<
    (),
    redb::Error,
>)
    ensures
        r matches Ok(_) ==> {
            &&& txn_avail(*final(t)) == txn_avail(*old(t)).insert(id)
            &&& txn_ranges(*final(t)) == txn_ranges(*old(t))
            &&& txn_jobs(*final(t)) == txn_jobs(*old(t))
            &&& txn_free(*final(t)) == txn_free(*old(t))
            &&& txn_token(*final(t)) == txn_token(*old(t))
        },
{
    let mut tbl = t.open_table(redb::TableDefinition::<u16, ()>::new("ranges_available"))?;
    tbl.insert(id, ())?;
    Ok(())
}

/// Relies on redb's `Table::remove` on the `ranges_available` table.
#[verifier::external_body]
pub(crate) fn avail_remove(t: &mut redb::WriteTransaction, id: u16) -> (r: Result<
    (),
    redb::Error,
>)
    ensures
        r matches Ok(_) ==> {
            &&& txn_avail(*final(t)) == txn_avail(*old(t)).remove(id)
            &&& txn_ranges(*final(t)) == txn_ranges(*old(t))
            &&& txn_jobs(*final(t)) == txn_jobs(*old(t))
            &&& txn_free(*final(t)) == txn_free(*old(t))
            &&& txn_token(*final(t)) == txn_token(*old(t))
        },
{
    let mut tbl = t.open_table(redb::TableDefinition::<u16, ()>::new("ranges_available"))?;
    tbl.remove(id)?;
    Ok(())
}

/// Relies on redb's `ReadableTable::iter` on a read snapshot of the
/// `ranges` table, in ascending id order; a table never yet created
/// reads as empty.
#[verifier::external_body]
pub(crate) fn read_ranges_snapshot(t: &redb::ReadTransaction) -> (r: Result<
    Vec<(u16, RangeVal)>,
    redb::Error,
>)
    ensures
        r matches Ok(v) ==> {
            &&& forall|i: int, j: int| 0 <= i < j < v@.len() ==> v@[i].0 < v@[j].0
            &&& forall|i: int|
                0 <= i < v@.len() ==> read_ranges(*t).contains_pair(
                    (#[trigger] v@[i]).0,
                    v@[i].1,
                )
            &&& forall|k: u16| #[trigger]
                read_ranges(*t).dom().contains(k) ==> exists|i: int|
                    0 <= i < v@.len() && (#[trigger] v@[i]).0 == k
        },
{
    let tbl = match t.open_table(redb::TableDefinition::<u16, RangeVal>::new("ranges")) {
        Ok(tb) => tb,
        Err(redb::TableError::TableDoesNotExist(_)) => return Ok(Vec::new()),
        Err(e) => return Err(redb::Error::from(e)),
    };
    let mut out: Vec<(u16, RangeVal)> = Vec::new();
    for row in redb::ReadableTable::iter(&tbl)? {
        let (k, v) = row?;
        out.push((k.value(), v.value()));
    }
    Ok(out)
}

} // verus!
