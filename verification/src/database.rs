//! The ledger operations.  Each one opens its own transaction on the
//! durable store, decides and persists in one all-or-nothing step, and
//! is specified as an exact transition on the store's contents.

use crate::num_utils;
use crate::records::{JobRecord, RangeRecord};
use crate::state::{
    acquire_spec, commit_spec, init_fold, init_step, is_first_stale, is_min_of, is_max_of, job_of,
    lemma_sum_insert, next_id_spec, range_of, range_tweaks_left, remaining_total, set_max, set_min,
    set_nonempty, stale_exists, sum_over, JobVal, RangeVal, StoreView,
};
use crate::store::{
    avail_insert, avail_remove, avail_snapshot, begin_read, begin_write, db_avail, db_free,
    db_jobs, db_ranges, db_token, db_view, free_insert, free_pop_first, jobs_get, jobs_insert,
    jobs_remove, jobs_snapshot, ranges_get, ranges_insert, read_ranges, read_ranges_snapshot,
    txn_avail, txn_commit, txn_free, txn_jobs, txn_ranges, txn_token, txn_view,
};
use vstd::prelude::*;

verus! {

/// Seconds after which an unconfirmed lease counts as abandoned.
pub const JOB_TIMEOUT_SECS: u64 = 1200;

/// Failure of a ledger operation.
#[derive(Debug)]
pub enum DbError {
    /// The store itself failed.  The operation's changes were applied
    /// in full or not at all, but a failure while committing may
    /// leave them durable; retrying is the caller's policy.
    Storage(redb::Error),
    /// The persisted state broke an invariant of the ledger; the
    /// operation was abandoned with no durable effect.  Not
    /// retryable.
    Corrupted,
}

/// The set of range ids a snapshot's prefix holds.
spec fn seq_range_keys(s: Seq<(u16, RangeVal)>) -> Set<u16> {
    Set::new(|k: u16| exists|j: int| 0 <= j < s.len() && (#[trigger] s[j]).0 == k)
}

/// Reports how much of the search space is still unconfirmed: the
/// total count of open tweaks over all ranges, as 8 little-endian
/// 32-bit limbs.  Read-only; progress as a ratio is 1 minus this
/// total divided by the size of the whole space.
pub fn db_get_progress(db: &redb::Database) -> (r: Result<[u32; 8], DbError>)
    ensures
        r matches Ok(limbs) ==> {
            &&& forall|k: u16|
                db_ranges(*db).dom().contains(k) ==> (#[trigger] range_of(
                    k,
                    db_ranges(*db)[k],
                )).wf()
            &&& num_utils::u256_val(limbs@) == remaining_total(db_ranges(*db))
        },
        r matches Err(DbError::Corrupted) ==> exists|k: u16|
            db_ranges(*db).dom().contains(k) && !(#[trigger] range_of(
                k,
                db_ranges(*db)[k],
            )).wf(),
{
    let t = match begin_read(db) {
        Ok(t) => t,
        Err(e) => {
            return Err(DbError::Storage(e));
        },
    };
    let rows = match read_ranges_snapshot(&t) {
        Ok(v) => v,
        Err(e) => {
            return Err(DbError::Storage(e));
        },
    };
    let ghost rmap = read_ranges(t);
    let n = rows.len();
    let mut acc: [u32; 8] = [0;8];
    let mut i: usize = 0;
    proof {
        assert(seq_range_keys(rows@.take(0)) =~= Set::<u16>::empty());
        assert(num_utils::u256_val(acc@) == 0);
    }
    while i < n
        invariant
            n == rows@.len(),
            i <= n,
            rmap == read_ranges(t),
            rmap == db_ranges(*db),
            rmap.dom().finite(),
            forall|a: int, b: int| 0 <= a < b < rows@.len() ==> rows@[a].0 < rows@[b].0,
            forall|a: int|
                0 <= a < rows@.len() ==> rmap.contains_pair((#[trigger] rows@[a]).0, rows@[a].1),
            forall|k: u16| #[trigger]
                rmap.dom().contains(k) ==> exists|a: int|
                    0 <= a < rows@.len() && (#[trigger] rows@[a]).0 == k,
            forall|a: int|
                0 <= a < i ==> (#[trigger] range_of(rows@[a].0, rows@[a].1)).wf(),
            num_utils::u256_val(acc@) == sum_over(
                seq_range_keys(rows@.take(i as int)),
                range_tweaks_left(rmap),
            ),
            num_utils::u256_val(acc@) <= i as int * (u128::MAX as int),
        decreases n - i,
    {
        let row_id = rows[i].0;
        let rv = rows[i].1;
        let rec = RangeRecord::from_value(row_id, &rv);
        if !(rec.tweak_current <= rec.tweak_end && rec.tweak_end - rec.tweak_current < u128::MAX
            && rec.key_committed_progress <= rec.key_progress) {
            proof {
                assert(rmap.contains_pair(row_id, rv));
                assert(!range_of(row_id, db_ranges(*db)[row_id]).wf());
            }
            return Err(DbError::Corrupted);
        }
        let left = rec.tweaks_left();
        let (acc2, carry) = num_utils::add_u128_to_u256(&acc, left);
        proof {
            let pre = seq_range_keys(rows@.take(i as int));
            let f = range_tweaks_left(rmap);
            assert(!pre.contains(row_id));
            assert(pre.finite()) by {
                assert(pre.subset_of(rmap.dom()));
                vstd::set_lib::lemma_len_subset(pre, rmap.dom());
            }
            lemma_sum_insert(pre, row_id, f);
            assert forall|k: u16|
                seq_range_keys(rows@.take(i as int + 1)).contains(k) implies pre.insert(
                row_id,
            ).contains(k) by {
                let j = choose|j: int|
                    0 <= j < rows@.take(i as int + 1).len() && (#[trigger] rows@.take(
                        i as int + 1,
                    )[j]).0 == k;
                if j < i as int {
                    assert((rows@.take(i as int)[j]).0 == k);
                }
            }
            assert forall|k: u16|
                pre.insert(row_id).contains(k) implies seq_range_keys(
                rows@.take(i as int + 1),
            ).contains(k) by {
                if k == row_id {
                    assert((rows@.take(i as int + 1)[i as int]).0 == k);
                } else {
                    let j = choose|j: int|
                        0 <= j < rows@.take(i as int).len() && (#[trigger] rows@.take(
                            i as int,
                        )[j]).0 == k;
                    assert((rows@.take(i as int + 1)[j]).0 == k);
                }
            }
            assert(seq_range_keys(rows@.take(i as int + 1)) =~= pre.insert(row_id));
            assert(f(row_id) == left as int);
            assert((i as int + 1) * (u128::MAX as int) == i as int * (u128::MAX as int) + (
            u128::MAX - 1 + 1)) by (nonlinear_arith);
            assert(i as int * (u128::MAX as int) <= 0xffff_ffff_ffff_ffff * (u128::MAX as int))
                by (nonlinear_arith)
                requires
                    i as int <= 0xffff_ffff_ffff_ffff,
            ;
            assert(!carry);
        }
        acc = acc2;
        i = i + 1;
    }
    proof {
        assert(rows@.take(n as int) =~= rows@);
        assert forall|k: u16| seq_range_keys(rows@).contains(k) implies rmap.dom().contains(
            k,
        ) by {
            let j = choose|j: int| 0 <= j < rows@.len() && (#[trigger] rows@[j]).0 == k;
            assert(rmap.contains_pair(rows@[j].0, rows@[j].1));
        }
        assert(seq_range_keys(rows@.take(n as int)) =~= rmap.dom());
    }
    Ok(acc)
}

/// Writes the given range records into the store in one transaction,
/// marking each as available exactly when it still holds undispatched
/// keys.  Creates the partitioning at first initialization; the ranges
/// to write are passed in so a deployment (or a test) can choose its
/// partitioning.
pub fn db_init_ranges(db: &mut redb::Database, ranges: &Vec<RangeRecord>) -> (r: Result<
    (),
    DbError,
>)
    ensures
        db_token(*final(db)) == db_token(*old(db)),
        r matches Ok(_) ==> db_view(*final(db)) == init_fold(db_view(*old(db)), ranges@),
        r matches Err(_) ==> db_view(*final(db)) == db_view(*old(db)) || db_view(*final(db))
            == init_fold(db_view(*old(db)), ranges@),
{
    let mut t = match begin_write(db) {
        Ok(t) => t,
        Err(e) => {
            return Err(DbError::Storage(e));
        },
    };
    let ghost s0 = db_view(*old(db));
    let n = ranges.len();
    let mut i: usize = 0;
    while i < n
        invariant
            n == ranges@.len(),
            i <= n,
            s0 == db_view(*old(db)),
            txn_view(t) == init_fold(s0, ranges@.take(i as int)),
            txn_token(t) == db_token(*old(db)),
            db_view(*db) == s0,
            db_token(*db) == db_token(*old(db)),
        decreases n - i,
    {
        let rec = ranges[i];
        match ranges_insert(&mut t, rec.id, rec.value()) {
            Ok(_) => {},
            Err(e) => {
                return Err(DbError::Storage(e));
            },
        }
        if rec.key_progress < u128::MAX {
            match avail_insert(&mut t, rec.id) {
                Ok(_) => {},
                Err(e) => {
                    return Err(DbError::Storage(e));
                },
            }
        } else {
            match avail_remove(&mut t, rec.id) {
                Ok(_) => {},
                Err(e) => {
                    return Err(DbError::Storage(e));
                },
            }
        }
        proof {
            assert(ranges@.take(i as int + 1).drop_last() =~= ranges@.take(i as int));
            assert(txn_view(t) == init_step(init_fold(s0, ranges@.take(i as int)), rec));
        }
        i = i + 1;
    }
    proof {
        assert(ranges@.take(n as int) =~= ranges@);
    }
    let ghost tv = txn_view(t);
    match txn_commit(db, t) {
        Ok(_) => Ok(()),
        Err(e) => {
            proof {
                assert(db_view(*db) == s0 || db_view(*db) == tv);
            }
            Err(DbError::Storage(e))
        },
    }
}

/// Confirms a lease in one transaction: removes the job, recycles its
/// id, folds its length into its range and updates the available set.
/// Returns whether a matching lease was found; `false` is the normal,
/// idempotent outcome when a racing caller already resolved the job.
pub fn db_commit_job(db: &mut redb::Database, job_id: u64) -> (r: Result<bool, DbError>)
    ensures
        db_token(*final(db)) == db_token(*old(db)),
        r matches Ok(found) ==> {
            let step = commit_spec(db_view(*old(db)), job_id);
            &&& !step.fatal
            &&& found == step.found
            &&& db_view(*final(db)) == step.post
        },
        r matches Err(_) ==> db_view(*final(db)) == db_view(*old(db)) || db_view(*final(db))
            == commit_spec(db_view(*old(db)), job_id).post,
        r matches Err(DbError::Corrupted) ==> db_view(*final(db)) == db_view(*old(db))
            && commit_spec(db_view(*old(db)), job_id).fatal,
{
    let mut t = match begin_write(db) {
        Ok(t) => t,
        Err(e) => {
            return Err(DbError::Storage(e));
        },
    };
    let ghost s0 = db_view(*old(db));
    let got = match jobs_get(&t, job_id) {
        Ok(o) => o,
        Err(e) => {
            return Err(DbError::Storage(e));
        },
    };
    match got {
        Option::None => {
            let ghost tv = txn_view(t);
            match txn_commit(db, t) {
                Ok(_) => Ok(false),
                Err(e) => {
                    proof {
                        assert(tv == s0);
                        assert(db_view(*db) == s0);
                    }
                    Err(DbError::Storage(e))
                },
            }
        },
        Some(jv) => {
            match jobs_remove(&mut t, job_id) {
                Ok(_) => {},
                Err(e) => {
                    return Err(DbError::Storage(e));
                },
            }
            match free_insert(&mut t, job_id) {
                Ok(_) => {},
                Err(e) => {
                    return Err(DbError::Storage(e));
                },
            }
            let rvo = match ranges_get(&t, jv.0) {
                Ok(o) => o,
                Err(e) => {
                    return Err(DbError::Storage(e));
                },
            };
            match rvo {
                Option::None => Err(DbError::Corrupted),
                Some(rv) => {
                    let mut rec = RangeRecord::from_value(jv.0, &rv);
                    if rec.tweak_current > rec.tweak_end {
                        return Err(DbError::Corrupted);
                    }
                    if jv.3 as u128 > u128::MAX - rec.key_committed_progress {
                        return Err(DbError::Corrupted);
                    }
                    let active = rec.commit_work(jv.3);
                    match ranges_insert(&mut t, rec.id, rec.value()) {
                        Ok(_) => {},
                        Err(e) => {
                            return Err(DbError::Storage(e));
                        },
                    }
                    if active {
                        match avail_insert(&mut t, rec.id) {
                            Ok(_) => {},
                            Err(e) => {
                                return Err(DbError::Storage(e));
                            },
                        }
                    } else {
                        match avail_remove(&mut t, rec.id) {
                            Ok(_) => {},
                            Err(e) => {
                                return Err(DbError::Storage(e));
                            },
                        }
                    }
                    let ghost tv = txn_view(t);
                    match txn_commit(db, t) {
                        Ok(_) => Ok(true),
                        Err(e) => {
                            proof {
                                assert(tv == commit_spec(s0, job_id).post);
                                assert(db_view(*db) == s0 || db_view(*db) == tv);
                            }
                            Err(DbError::Storage(e))
                        },
                    }
                },
            }
        },
    }
}

/// Picks an id just outside the outstanding id interval, for when the
/// recycled pool is empty: 0 on an empty table, else one below the
/// smallest outstanding id, else one above the largest.  `None` means
/// the 64-bit id space is saturated, a fatal condition.  `jrows` is
/// the jobs table in ascending id order.
fn get_new_job_id(jrows: &Vec<(u64, JobVal)>, Ghost(jmap): Ghost<Map<u64, JobVal>>) -> (r: Option<
    u64,
>)
    requires
        forall|a: int, b: int| 0 <= a < b < jrows@.len() ==> jrows@[a].0 < jrows@[b].0,
        forall|a: int|
            0 <= a < jrows@.len() ==> jmap.contains_pair((#[trigger] jrows@[a]).0, jrows@[a].1),
        forall|k: u64| #[trigger]
            jmap.dom().contains(k) ==> exists|a: int|
                0 <= a < jrows@.len() && (#[trigger] jrows@[a]).0 == k,
    ensures
        r == crate::state::fresh_id_spec(jmap.dom()),
{
    let jn = jrows.len();
    if jn == 0 {
        proof {
            assert(!set_nonempty(jmap.dom())) by {
                if set_nonempty(jmap.dom()) {
                    let k = choose|k: u64| jmap.dom().contains(k);
                    let a = choose|a: int|
                        0 <= a < jrows@.len() && (#[trigger] jrows@[a]).0 == k;
                    assert(false);
                }
            }
        }
        return Some(0);
    }
    let first_id = jrows[0].0;
    proof {
        assert(jmap.contains_pair(jrows@[0].0, jrows@[0].1));
        assert(is_min_of(jmap.dom(), first_id)) by {
            assert forall|k: u64| #[trigger] jmap.dom().contains(k) implies first_id <= k by {
                let a = choose|a: int| 0 <= a < jrows@.len() && (#[trigger] jrows@[a]).0 == k;
                if a > 0 {
                    assert(jrows@[0].0 < jrows@[a].0);
                }
            }
        }
        assert(set_min(jmap.dom()) == first_id) by {
            let sm = set_min(jmap.dom());
            assert(is_min_of(jmap.dom(), sm));
        }
    }
    if first_id > 0 {
        return Some(first_id - 1);
    }
    let last_id = jrows[jn - 1].0;
    proof {
        assert(jmap.contains_pair(jrows@[jn - 1].0, jrows@[jn - 1].1));
        assert(is_max_of(jmap.dom(), last_id)) by {
            assert forall|k: u64| #[trigger] jmap.dom().contains(k) implies k <= last_id by {
                let a = choose|a: int| 0 <= a < jrows@.len() && (#[trigger] jrows@[a]).0 == k;
                if a < jn - 1 {
                    assert(jrows@[a].0 < jrows@[jn - 1].0);
                }
            }
        }
        assert(set_max(jmap.dom()) == last_id) by {
            let sm = set_max(jmap.dom());
            assert(is_max_of(jmap.dom(), sm));
        }
    }
    if last_id < u64::MAX {
        Some(last_id + 1)
    } else {
        Option::None
    }
}

/// The acquire outcome `out` and post-state `post` are what
/// `acquire_spec` gives for the selected range `pick`, and `pick` was
/// taken from the available set whenever a fresh job had to be carved.
pub open spec fn acquire_post_matches(
    s: StoreView,
    pref_job_size: u64,
    now_secs: u64,
    pick: u16,
    out: Option<JobRecord>,
    post: StoreView,
) -> bool {
    let step = acquire_spec(s, pref_job_size, now_secs, JOB_TIMEOUT_SECS, pick);
    &&& (!stale_exists(s.jobs, now_secs, JOB_TIMEOUT_SECS) && set_nonempty(s.avail)
        ==> s.avail.contains(pick))
    &&& !step.fatal
    &&& out == step.job
    &&& post == step.post
}

/// Issues one lease in one transaction.  First reclaims the
/// lowest-id stale lease if any (its content unchanged but for a fresh
/// lease time); else draws a job id (recycled if possible), picks an
/// available range at random, and carves the next slice from it.
/// `Ok(None)` means every range is retired or fully dispatched: the
/// search space offers no more work right now.
pub fn db_create_job(
    db: &mut redb::Database,
    rng: &mut rand::rngs::StdRng,
    pref_job_size: u64,
    now_secs: u64,
) -> (r: Result<Option<JobRecord>, DbError>)
    ensures
        db_token(*final(db)) == db_token(*old(db)),
        r matches Ok(out) ==> exists|pick: u16|
            #[trigger] acquire_post_matches(
                db_view(*old(db)),
                pref_job_size,
                now_secs,
                pick,
                out,
                db_view(*final(db)),
            ),
        r matches Err(_) ==> db_view(*final(db)) == db_view(*old(db)) || exists|pick: u16|
            (#[trigger] acquire_spec(
                db_view(*old(db)),
                pref_job_size,
                now_secs,
                JOB_TIMEOUT_SECS,
                pick,
            )).post == db_view(*final(db)),
        r matches Err(DbError::Corrupted) ==> db_view(*final(db)) == db_view(*old(db))
            && exists|pick: u16|
            (#[trigger] acquire_spec(
                db_view(*old(db)),
                pref_job_size,
                now_secs,
                JOB_TIMEOUT_SECS,
                pick,
            )).fatal,
{
    let mut t = match begin_write(db) {
        Ok(t) => t,
        Err(e) => {
            return Err(DbError::Storage(e));
        },
    };
    let ghost s0 = db_view(*old(db));
    let jrows = match jobs_snapshot(&t) {
        Ok(v) => v,
        Err(e) => {
            return Err(DbError::Storage(e));
        },
    };
    let ghost jmap = txn_jobs(t);
    let jn = jrows.len();
    let mut i: usize = 0;
    while i < jn
        invariant
            jn == jrows@.len(),
            i <= jn,
            s0 == db_view(*old(db)),
            jmap == s0.jobs,
            txn_view(t) == s0,
            txn_token(t) == db_token(*old(db)),
            db_view(*db) == s0,
            db_token(*db) == db_token(*old(db)),
            forall|a: int, b: int| 0 <= a < b < jrows@.len() ==> jrows@[a].0 < jrows@[b].0,
            forall|a: int|
                0 <= a < jrows@.len() ==> jmap.contains_pair((#[trigger] jrows@[a]).0, jrows@[a].1),
            forall|k: u64| #[trigger]
                jmap.dom().contains(k) ==> exists|a: int|
                    0 <= a < jrows@.len() && (#[trigger] jrows@[a]).0 == k,
            forall|a: int|
                0 <= a < i ==> !job_of((#[trigger] jrows@[a]).0, jrows@[a].1).is_stale(
                    now_secs,
                    JOB_TIMEOUT_SECS,
                ),
        decreases jn - i,
    {
        let row = jrows[i];
        let jid = row.0;
        let jv = row.1;
        if jv.4 <= now_secs && now_secs - jv.4 > JOB_TIMEOUT_SECS {
            let renewed = (jv.0, jv.1, jv.2, jv.3, now_secs);
            proof {
                assert(jmap.contains_pair(jid, jv));
                assert(job_of(jid, jmap[jid]).is_stale(now_secs, JOB_TIMEOUT_SECS));
                assert forall|k: u64|
                    k < jid && #[trigger] jmap.dom().contains(k) implies !job_of(
                    k,
                    jmap[k],
                ).is_stale(now_secs, JOB_TIMEOUT_SECS) by {
                    let a = choose|a: int|
                        0 <= a < jrows@.len() && (#[trigger] jrows@[a]).0 == k;
                    if a > i as int {
                        assert(jrows@[i as int].0 < jrows@[a].0);
                        assert(false);
                    }
                    if a == i as int {
                        assert(false);
                    }
                    assert(jmap.contains_pair(jrows@[a].0, jrows@[a].1));
                }
                assert(is_first_stale(jmap, now_secs, JOB_TIMEOUT_SECS, jid));
                assert(stale_exists(jmap, now_secs, JOB_TIMEOUT_SECS));
                let fsid = crate::state::first_stale_id(jmap, now_secs, JOB_TIMEOUT_SECS);
                assert(is_first_stale(jmap, now_secs, JOB_TIMEOUT_SECS, fsid));
                if fsid < jid {
                    assert(!job_of(fsid, jmap[fsid]).is_stale(now_secs, JOB_TIMEOUT_SECS));
                    assert(false);
                }
                if jid < fsid {
                    assert(!job_of(jid, jmap[jid]).is_stale(now_secs, JOB_TIMEOUT_SECS));
                    assert(false);
                }
                assert(fsid == jid);
            }
            match jobs_insert(&mut t, jid, renewed) {
                Ok(_) => {},
                Err(e) => {
                    return Err(DbError::Storage(e));
                },
            }
            let ghost tv = txn_view(t);
            match txn_commit(db, t) {
                Ok(_) => {},
                Err(e) => {
                    proof {
                        if db_view(*db) != s0 {
                            let step = acquire_spec(
                                s0,
                                pref_job_size,
                                now_secs,
                                JOB_TIMEOUT_SECS,
                                0u16,
                            );
                            assert(tv == step.post);
                            assert(step.post == db_view(*db));
                        }
                    }
                    return Err(DbError::Storage(e));
                },
            }
            let out = JobRecord::from_data(jid, &renewed);
            proof {
                let step = acquire_spec(s0, pref_job_size, now_secs, JOB_TIMEOUT_SECS, 0u16);
                assert(step.post.jobs == db_jobs(*db));
                assert(db_view(*db) == step.post);
                assert(Some(out) == step.job);
                assert(acquire_post_matches(s0, pref_job_size, now_secs, 0u16, Some(out), db_view(*db)));
            }
            return Ok(Some(out));
        }
        i = i + 1;
    }
    proof {
        assert(!stale_exists(jmap, now_secs, JOB_TIMEOUT_SECS)) by {
            if stale_exists(jmap, now_secs, JOB_TIMEOUT_SECS) {
                let j = choose|j: u64|
                    jmap.dom().contains(j) && (#[trigger] job_of(j, jmap[j])).is_stale(
                        now_secs,
                        JOB_TIMEOUT_SECS,
                    );
                let a = choose|a: int| 0 <= a < jrows@.len() && (#[trigger] jrows@[a]).0 == j;
                assert(jmap.contains_pair(jrows@[a].0, jrows@[a].1));
                assert(false);
            }
        }
    }
    // No stale lease: draw an id, preferring the recycled pool.
    let popped = match free_pop_first(&mut t) {
        Ok(o) => o,
        Err(e) => {
            return Err(DbError::Storage(e));
        },
    };
    let job_id: u64 = match popped {
        Some(m) => {
            proof {
                assert(set_nonempty(s0.free));
                let sm = set_min(s0.free);
                assert(is_min_of(s0.free, sm));
                assert(sm == m);
            }
            m
        },
        Option::None => {
            match get_new_job_id(&jrows, Ghost(jmap)) {
                Some(v) => v,
                Option::None => {
                    proof {
                        let step = acquire_spec(
                            s0,
                            pref_job_size,
                            now_secs,
                            JOB_TIMEOUT_SECS,
                            0u16,
                        );
                        assert(next_id_spec(s0.jobs.dom(), s0.free) is None);
                        assert(step.fatal);
                    }
                    return Err(DbError::Corrupted);
                },
            }
        },
    };
    proof {
        assert(next_id_spec(s0.jobs.dom(), s0.free) == Some(job_id));
    }
    // Pick a range still able to yield work, uniformly at random.
    let avvec = match avail_snapshot(&t) {
        Ok(v) => v,
        Err(e) => {
            return Err(DbError::Storage(e));
        },
    };
    if avvec.len() == 0 {
        proof {
            assert(!set_nonempty(s0.avail)) by {
                if set_nonempty(s0.avail) {
                    let k = choose|k: u16| s0.avail.contains(k);
                    let a = choose|a: int| 0 <= a < avvec@.len() && avvec@[a] == k;
                    assert(false);
                }
            }
            let step = acquire_spec(s0, pref_job_size, now_secs, JOB_TIMEOUT_SECS, 0u16);
            assert(!step.fatal && step.job is None && step.post == s0);
            assert(acquire_post_matches(s0, pref_job_size, now_secs, 0u16, None, db_view(*db)));
        }
        return Ok(None);
    }
    let idx = crate::randsrc::random_index(rng, avvec.len());
    let pick = avvec[idx];
    proof {
        assert(s0.avail.contains(pick));
    }
    let rvo = match ranges_get(&t, pick) {
        Ok(o) => o,
        Err(e) => {
            return Err(DbError::Storage(e));
        },
    };
    match rvo {
        Option::None => {
            proof {
                let step = acquire_spec(s0, pref_job_size, now_secs, JOB_TIMEOUT_SECS, pick);
                assert(step.fatal);
            }
            Err(DbError::Corrupted)
        },
        Some(rv) => {
            let mut rec = RangeRecord::from_value(pick, &rv);
            if pref_job_size == 0 || rec.key_progress == u128::MAX {
                proof {
                    let step = acquire_spec(s0, pref_job_size, now_secs, JOB_TIMEOUT_SECS, pick);
                    assert(step.fatal);
                }
                return Err(DbError::Corrupted);
            }
            let job = rec.create_job(job_id, pref_job_size, now_secs);
            match jobs_insert(&mut t, job_id, job.get_value()) {
                Ok(_) => {},
                Err(e) => {
                    return Err(DbError::Storage(e));
                },
            }
            match ranges_insert(&mut t, pick, rec.value()) {
                Ok(_) => {},
                Err(e) => {
                    return Err(DbError::Storage(e));
                },
            }
            if rec.key_progress == u128::MAX {
                match avail_remove(&mut t, pick) {
                    Ok(_) => {},
                    Err(e) => {
                        return Err(DbError::Storage(e));
                    },
                }
            }
            let ghost tv = txn_view(t);
            match txn_commit(db, t) {
                Ok(_) => {},
                Err(e) => {
                    proof {
                        if db_view(*db) != s0 {
                            let step = acquire_spec(
                                s0,
                                pref_job_size,
                                now_secs,
                                JOB_TIMEOUT_SECS,
                                pick,
                            );
                            assert(tv == step.post);
                            assert(step.post == db_view(*db));
                        }
                    }
                    return Err(DbError::Storage(e));
                },
            }
            proof {
                let step = acquire_spec(s0, pref_job_size, now_secs, JOB_TIMEOUT_SECS, pick);
                assert(!step.fatal);
                assert(step.job == Some(job));
                assert(db_view(*db) == step.post);
                assert(acquire_post_matches(s0, pref_job_size, now_secs, pick, Some(job), db_view(*db)));
            }
            Ok(Some(job))
        },
    }
}

} // verus!
