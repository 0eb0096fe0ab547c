//! The mathematical model of the durable store: the contents of its
//! four tables, the well-formedness invariant every operation
//! preserves, and the exact transition each operation performs.

use crate::records::{JobRecord, RangeRecord};
use vstd::prelude::*;

verus! {

/// Table value of a range: tweak cursor, tweak bound, dispatch
/// watermark, committed counter.
pub type RangeVal = (u128, u128, u128, u128);

/// Table value of a job: owning range, tweak, first key offset,
/// length, lease time.
pub type JobVal = (u16, u128, u128, u64, u64);

/// Contents of the four durable tables.
pub ghost struct StoreView {
    pub ranges: Map<u16, RangeVal>,
    pub avail: Set<u16>,
    pub jobs: Map<u64, JobVal>,
    pub free: Set<u64>,
}

/// The range record stored under key `id`.
pub open spec fn range_of(id: u16, v: RangeVal) -> RangeRecord {
    RangeRecord {
        id,
        tweak_current: v.0,
        tweak_end: v.1,
        key_progress: v.2,
        key_committed_progress: v.3,
    }
}

/// The job record stored under key `id`.
pub open spec fn job_of(id: u64, v: JobVal) -> JobRecord {
    JobRecord { id, range_id: v.0, tweak_key: v.1, start_key: v.2, len: v.3, start_time: v.4 }
}

/// A set with at least one element; unlike `len() > 0` this needs no
/// finiteness.
pub open spec fn set_nonempty<K>(s: Set<K>) -> bool {
    exists|k: K| s.contains(k)
}

/// Sum of `f` over a finite set.
pub open spec fn sum_over<K>(s: Set<K>, f: spec_fn(K) -> int) -> int
    decreases s.len(),
    when s.finite()
{
    if s.finite() && s.len() > 0 {
        let k = s.choose();
        f(k) + sum_over(s.remove(k), f)
    } else {
        0
    }
}

/// Removing an element takes its summand out of the sum.
pub proof fn lemma_sum_remove<K>(s: Set<K>, k: K, f: spec_fn(K) -> int)
    requires
        s.finite(),
        s.contains(k),
    ensures
        sum_over(s, f) == f(k) + sum_over(s.remove(k), f),
    decreases s.len(),
{
    let c = s.choose();
    assert(s.contains(c));
    if c == k {
    } else {
        let s1 = s.remove(c);
        lemma_sum_remove(s1, k, f);
        lemma_sum_remove(s.remove(k), c, f);
        assert(s1.remove(k) =~= s.remove(k).remove(c));
    }
}

/// Inserting a fresh element adds its summand to the sum.
pub proof fn lemma_sum_insert<K>(s: Set<K>, k: K, f: spec_fn(K) -> int)
    requires
        s.finite(),
        !s.contains(k),
    ensures
        sum_over(s.insert(k), f) == sum_over(s, f) + f(k),
{
    lemma_sum_remove(s.insert(k), k, f);
    assert(s.insert(k).remove(k) =~= s);
}

/// Two summand functions that agree on the set give the same sum.
pub proof fn lemma_sum_congruence<K>(s: Set<K>, f: spec_fn(K) -> int, g: spec_fn(K) -> int)
    requires
        s.finite(),
        forall|k: K| s.contains(k) ==> #[trigger] f(k) == g(k),
    ensures
        sum_over(s, f) == sum_over(s, g),
    decreases s.len(),
{
    if s.len() > 0 {
        let c = s.choose();
        assert(s.contains(c));
        lemma_sum_congruence(s.remove(c), f, g);
    }
}

/// A sum of non-negative summands is non-negative.
pub proof fn lemma_sum_nonneg<K>(s: Set<K>, f: spec_fn(K) -> int)
    requires
        s.finite(),
        forall|k: K| s.contains(k) ==> #[trigger] f(k) >= 0,
    ensures
        sum_over(s, f) >= 0,
    decreases s.len(),
{
    if s.len() > 0 {
        let c = s.choose();
        assert(s.contains(c));
        lemma_sum_nonneg(s.remove(c), f);
    }
}

/// Summand-wise ordering carries over to the sums.
pub proof fn lemma_sum_le<K>(s: Set<K>, f: spec_fn(K) -> int, g: spec_fn(K) -> int)
    requires
        s.finite(),
        forall|k: K| s.contains(k) ==> #[trigger] f(k) <= #[trigger] g(k),
    ensures
        sum_over(s, f) <= sum_over(s, g),
    decreases s.len(),
{
    if s.len() > 0 {
        let c = s.choose();
        assert(s.contains(c));
        lemma_sum_le(s.remove(c), f, g);
    }
}

/// A sum of all-zero summands is 0.
pub proof fn lemma_sum_zero_fn<K>(s: Set<K>, f: spec_fn(K) -> int)
    requires
        s.finite(),
        forall|k: K| s.contains(k) ==> #[trigger] f(k) == 0,
    ensures
        sum_over(s, f) == 0,
    decreases s.len(),
{
    if s.len() > 0 {
        let c = s.choose();
        assert(s.contains(c));
        lemma_sum_zero_fn(s.remove(c), f);
    }
}

/// Length of outstanding job `j` if it draws from range `r`'s tweak
/// `tweak`, else 0.
pub open spec fn job_len_on(jobs: Map<u64, JobVal>, r: u16, tweak: u128) -> spec_fn(u64) -> int {
    |j: u64|
        if jobs.dom().contains(j) && jobs[j].0 == r && jobs[j].1 == tweak {
            jobs[j].3 as int
        } else {
            0
        }
}

/// Total length of the outstanding jobs drawn from range `r`'s tweak
/// `tweak`.
pub open spec fn outstanding_len(jobs: Map<u64, JobVal>, r: u16, tweak: u128) -> int {
    sum_over(jobs.dom(), job_len_on(jobs, r, tweak))
}

/// Two leases occupy disjoint work, either because they sit on
/// different (range, tweak) pairs or because their key intervals do
/// not meet.
pub open spec fn leases_disjoint(a: JobVal, b: JobVal) -> bool {
    ||| a.0 != b.0
    ||| a.1 != b.1
    ||| a.2 as int + a.3 as int <= b.2 as int
    ||| b.2 as int + b.3 as int <= a.2 as int
}

/// Well-formedness of the whole store.
pub open spec fn inv(s: StoreView) -> bool {
    &&& s.ranges.dom().finite()
    &&& s.jobs.dom().finite()
    &&& s.free.finite()
    &&& s.avail.finite()
    // every stored range is well-formed
    &&& forall|r: u16|
        s.ranges.dom().contains(r) ==> (#[trigger] range_of(r, s.ranges[r])).wf()
    // available ranges exist and still hold undispatched keys
    &&& forall|r: u16| #[trigger]
        s.avail.contains(r) ==> s.ranges.dom().contains(r) && s.ranges[r].2 < u128::MAX
    // every job draws from an existing range, on its current tweak,
    // inside the dispatched prefix
    &&& forall|j: u64| #[trigger]
        s.jobs.dom().contains(j) ==> {
            let jv = s.jobs[j];
            &&& s.ranges.dom().contains(jv.0)
            &&& jv.1 == s.ranges[jv.0].0
            &&& jv.3 >= 1
            &&& jv.2 >= 1
            &&& jv.2 as int + jv.3 as int - 1 <= s.ranges[jv.0].2 as int
        }
    // confirmed plus outstanding work never exceeds the dispatched
    // prefix
    &&& forall|r: u16|
        s.ranges.dom().contains(r) ==> {
            let rv = #[trigger] s.ranges[r];
            rv.3 as int + outstanding_len(s.jobs, r, rv.0) <= rv.2 as int
        }
    // no two outstanding leases overlap
    &&& forall|j1: u64, j2: u64|
        j1 != j2 && s.jobs.dom().contains(j1) && s.jobs.dom().contains(j2) ==> leases_disjoint(
            #[trigger] s.jobs[j1],
            #[trigger] s.jobs[j2],
        )
    // recycled ids are not outstanding
    &&& forall|j: u64| #[trigger] s.free.contains(j) ==> !s.jobs.dom().contains(j)
}

/// The lease `j` is stale and no lease with a smaller id is.
pub open spec fn is_first_stale(jobs: Map<u64, JobVal>, now: u64, timeout: u64, j: u64) -> bool {
    &&& jobs.dom().contains(j)
    &&& job_of(j, jobs[j]).is_stale(now, timeout)
    &&& forall|i: u64|
        i < j && #[trigger] jobs.dom().contains(i) ==> !job_of(i, jobs[i]).is_stale(now, timeout)
}

pub open spec fn stale_exists(jobs: Map<u64, JobVal>, now: u64, timeout: u64) -> bool {
    exists|j: u64| jobs.dom().contains(j) && (#[trigger] job_of(j, jobs[j])).is_stale(now, timeout)
}

/// The stale lease with the smallest id.
pub open spec fn first_stale_id(jobs: Map<u64, JobVal>, now: u64, timeout: u64) -> u64 {
    choose|j: u64| is_first_stale(jobs, now, timeout, j)
}

pub open spec fn is_min_of(s: Set<u64>, m: u64) -> bool {
    s.contains(m) && forall|k: u64| #[trigger] s.contains(k) ==> m <= k
}

pub open spec fn is_max_of(s: Set<u64>, m: u64) -> bool {
    s.contains(m) && forall|k: u64| #[trigger] s.contains(k) ==> k <= m
}

pub open spec fn set_min(s: Set<u64>) -> u64 {
    choose|m: u64| is_min_of(s, m)
}

pub open spec fn set_max(s: Set<u64>) -> u64 {
    choose|m: u64| is_max_of(s, m)
}

/// A job id outside the outstanding id interval: 0 on an empty
/// table, else one below the smallest id, else one above the largest;
/// `None` when the 64-bit id space is saturated (fatal).
pub open spec fn fresh_id_spec(jobs_dom: Set<u64>) -> Option<u64> {
    if !set_nonempty(jobs_dom) {
        Some(0u64)
    } else if set_min(jobs_dom) > 0 {
        Some((set_min(jobs_dom) - 1) as u64)
    } else if set_max(jobs_dom) < u64::MAX {
        Some((set_max(jobs_dom) + 1) as u64)
    } else {
        None
    }
}

/// The job id the ledger hands out next: the smallest recycled id if
/// any, else a fresh one.
pub open spec fn next_id_spec(jobs_dom: Set<u64>, free: Set<u64>) -> Option<u64> {
    if set_nonempty(free) {
        Some(set_min(free))
    } else {
        fresh_id_spec(jobs_dom)
    }
}

/// What acquiring a job decides and changes.
pub ghost struct AcquireStep {
    pub post: StoreView,
    /// The issued (or renewed) lease; `None` means the search space is
    /// exhausted.
    pub job: Option<JobRecord>,
    /// An invariant violation was detected; the store is left
    /// untouched.
    pub fatal: bool,
}

/// The exact transition of `db_create_job`, given the store it read,
/// the clock, the staleness timeout, and the range the random pick
/// selected (`pick` only matters when a fresh job is carved).
pub open spec fn acquire_spec(
    s: StoreView,
    pref_job_size: u64,
    now: u64,
    timeout: u64,
    pick: u16,
) -> AcquireStep {
    if stale_exists(s.jobs, now, timeout) {
        let j = first_stale_id(s.jobs, now, timeout);
        let jv = s.jobs[j];
        let renewed = (jv.0, jv.1, jv.2, jv.3, now);
        AcquireStep {
            post: StoreView { jobs: s.jobs.insert(j, renewed), ..s },
            job: Some(job_of(j, renewed)),
            fatal: false,
        }
    } else {
        match next_id_spec(s.jobs.dom(), s.free) {
            Option::None => AcquireStep { post: s, job: Option::None, fatal: true },
            Option::Some(id) => {
                if !set_nonempty(s.avail) {
                    AcquireStep { post: s, job: Option::None, fatal: false }
                } else if !s.ranges.dom().contains(pick) {
                    AcquireStep { post: s, job: Option::None, fatal: true }
                } else {
                    let rv = s.ranges[pick];
                    if pref_job_size == 0 || rv.2 == u128::MAX {
                        AcquireStep { post: s, job: Option::None, fatal: true }
                    } else {
                        let rr = range_of(pick, rv);
                        let job = rr.derived_job_spec(id, pref_job_size, now);
                        let kp2 = (rv.2 + job.len) as u128;
                        AcquireStep {
                            post: StoreView {
                                ranges: s.ranges.insert(pick, (rv.0, rv.1, kp2, rv.3)),
                                avail: if kp2 == u128::MAX {
                                    s.avail.remove(pick)
                                } else {
                                    s.avail
                                },
                                jobs: s.jobs.insert(id, job.spec_value()),
                                free: if set_nonempty(s.free) {
                                    s.free.remove(set_min(s.free))
                                } else {
                                    s.free
                                },
                            },
                            job: Some(job),
                            fatal: false,
                        }
                    }
                }
            },
        }
    }
}

/// What committing a job decides and changes.
pub ghost struct CommitStep {
    pub post: StoreView,
    /// Whether a matching lease was found; `false` is the idempotent
    /// no-op outcome.
    pub found: bool,
    /// An invariant violation was detected; the store is left
    /// untouched.
    pub fatal: bool,
}

/// The exact transition of `db_commit_job`.
pub open spec fn commit_spec(s: StoreView, id: u64) -> CommitStep {
    if !s.jobs.dom().contains(id) {
        CommitStep { post: s, found: false, fatal: false }
    } else {
        let jv = s.jobs[id];
        if !s.ranges.dom().contains(jv.0) {
            CommitStep { post: s, found: false, fatal: true }
        } else {
            let rv = s.ranges[jv.0];
            if rv.0 > rv.1 || rv.3 as int + jv.3 as int > u128::MAX as int {
                CommitStep { post: s, found: false, fatal: true }
            } else {
                let rr = range_of(jv.0, rv);
                let rr2 = rr.committed_range_spec(jv.3);
                let active = rr.committed_active_spec(jv.3);
                CommitStep {
                    post: StoreView {
                        ranges: s.ranges.insert(jv.0, rr2.spec_value()),
                        avail: if active {
                            s.avail.insert(jv.0)
                        } else {
                            s.avail.remove(jv.0)
                        },
                        jobs: s.jobs.remove(id),
                        free: s.free.insert(id),
                    },
                    found: true,
                    fatal: false,
                }
            }
        }
    }
}

/// Tweaks still unconfirmed in range `r`, else 0.
pub open spec fn range_tweaks_left(ranges: Map<u16, RangeVal>) -> spec_fn(u16) -> int {
    |r: u16|
        if ranges.dom().contains(r) {
            range_of(r, ranges[r]).tweaks_left_spec()
        } else {
            0
        }
}

/// Total count of tweaks, over all ranges, whose work is not yet
/// fully confirmed; 0 exactly when the whole space is searched.
pub open spec fn remaining_total(ranges: Map<u16, RangeVal>) -> int {
    sum_over(ranges.dom(), range_tweaks_left(ranges))
}

/// One step of initialization: store the record and mark it available
/// exactly when it still holds undispatched keys.
pub open spec fn init_step(s: StoreView, r: RangeRecord) -> StoreView {
    StoreView {
        ranges: s.ranges.insert(r.id, r.spec_value()),
        avail: if r.key_progress < u128::MAX {
            s.avail.insert(r.id)
        } else {
            s.avail.remove(r.id)
        },
        ..s
    }
}

/// The store after writing a sequence of range records in order.
pub open spec fn init_fold(s: StoreView, rs: Seq<RangeRecord>) -> StoreView
    decreases rs.len(),
{
    if rs.len() == 0 {
        s
    } else {
        init_step(init_fold(s, rs.drop_last()), rs.last())
    }
}

} // verus!
