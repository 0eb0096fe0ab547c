//! The laws of the ledger: the store invariant is preserved by every
//! operation, outstanding leases never overlap, watermarks only
//! advance, remaining work only shrinks, and a fully searched space is
//! terminal.

use crate::records::RangeRecord;
use crate::state::{
    acquire_spec, commit_spec, first_stale_id, init_fold, init_step, inv, is_first_stale,
    is_max_of, is_min_of, job_len_on, job_of, leases_disjoint, lemma_sum_congruence,
    lemma_sum_insert, lemma_sum_le, lemma_sum_nonneg, lemma_sum_remove, lemma_sum_zero_fn,
    next_id_spec, outstanding_len, range_of, range_tweaks_left, remaining_total, set_max, set_min,
    set_nonempty, stale_exists, JobVal, StoreView,
};
use vstd::prelude::*;

verus! {

/// Removing a lease takes exactly its contribution out of every
/// outstanding-work sum.
proof fn lemma_outstanding_remove(jobs: Map<u64, JobVal>, id: u64, q: u16, tw: u128)
    requires
        jobs.dom().finite(),
        jobs.dom().contains(id),
    ensures
        outstanding_len(jobs.remove(id), q, tw) == outstanding_len(jobs, q, tw) - job_len_on(
            jobs,
            q,
            tw,
        )(id),
{
    let f = job_len_on(jobs, q, tw);
    let g = job_len_on(jobs.remove(id), q, tw);
    lemma_sum_remove(jobs.dom(), id, f);
    assert(jobs.remove(id).dom() =~= jobs.dom().remove(id));
    lemma_sum_congruence(jobs.dom().remove(id), f, g);
}

/// Inserting a fresh lease adds exactly its contribution to every
/// outstanding-work sum.
proof fn lemma_outstanding_insert(jobs: Map<u64, JobVal>, id: u64, jv: JobVal, q: u16, tw: u128)
    requires
        jobs.dom().finite(),
        !jobs.dom().contains(id),
    ensures
        outstanding_len(jobs.insert(id, jv), q, tw) == outstanding_len(jobs, q, tw) + (if jv.0 == q
            && jv.1 == tw {
            jv.3 as int
        } else {
            0int
        }),
{
    let jobs2 = jobs.insert(id, jv);
    let g = job_len_on(jobs2, q, tw);
    assert(jobs2.dom() =~= jobs.dom().insert(id));
    lemma_sum_insert(jobs.dom(), id, g);
    lemma_sum_congruence(jobs.dom(), job_len_on(jobs, q, tw), g);
}

/// Renewing a lease in place (same range, tweak and length) leaves
/// every outstanding-work sum unchanged.
proof fn lemma_outstanding_renew(jobs: Map<u64, JobVal>, id: u64, jv2: JobVal, q: u16, tw: u128)
    requires
        jobs.dom().finite(),
        jobs.dom().contains(id),
        jv2.0 == jobs[id].0,
        jv2.1 == jobs[id].1,
        jv2.3 == jobs[id].3,
    ensures
        outstanding_len(jobs.insert(id, jv2), q, tw) == outstanding_len(jobs, q, tw),
{
    assert(jobs.insert(id, jv2).dom() =~= jobs.dom());
    lemma_sum_congruence(
        jobs.dom(),
        job_len_on(jobs, q, tw),
        job_len_on(jobs.insert(id, jv2), q, tw),
    );
}

/// Every outstanding-work sum is non-negative, and bounds each of its
/// members.
proof fn lemma_outstanding_member(jobs: Map<u64, JobVal>, id: u64, q: u16, tw: u128)
    requires
        jobs.dom().finite(),
        jobs.dom().contains(id),
        jobs[id].0 == q,
        jobs[id].1 == tw,
    ensures
        jobs[id].3 as int <= outstanding_len(jobs, q, tw),
{
    let f = job_len_on(jobs, q, tw);
    lemma_sum_remove(jobs.dom(), id, f);
    assert forall|k: u64| jobs.dom().remove(id).contains(k) implies #[trigger] f(k) >= 0 by {}
    lemma_sum_nonneg(jobs.dom().remove(id), f);
}

/// No overlap: under the store invariant, any two outstanding leases
/// drawn against the same range and tweak occupy disjoint key-offset
/// intervals.
pub proof fn lemma_no_overlap(s: StoreView, j1: u64, j2: u64)
    requires
        inv(s),
        j1 != j2,
        s.jobs.dom().contains(j1),
        s.jobs.dom().contains(j2),
        s.jobs[j1].0 == s.jobs[j2].0,
        s.jobs[j1].1 == s.jobs[j2].1,
    ensures
        s.jobs[j1].2 + s.jobs[j1].3 <= s.jobs[j2].2 || s.jobs[j2].2 + s.jobs[j2].3
            <= s.jobs[j1].2,
{
    assert(leases_disjoint(s.jobs[j1], s.jobs[j2]));
}

/// Committing a job can never hit a fatal invariant violation when
/// the store is well-formed; it preserves the invariant; it reports a
/// found lease exactly when the job is outstanding; and a found
/// lease's id lands in the free pool (the recycling round trip).
pub proof fn lemma_commit_preserves_inv(s: StoreView, id: u64)
    requires
        inv(s),
    ensures
        !commit_spec(s, id).fatal,
        inv(commit_spec(s, id).post),
        commit_spec(s, id).found == s.jobs.dom().contains(id),
        commit_spec(s, id).found ==> commit_spec(s, id).post.free.contains(id) && !commit_spec(
            s,
            id,
        ).post.jobs.dom().contains(id),
{
    if s.jobs.dom().contains(id) {
        let jv = s.jobs[id];
        let q = jv.0;
        let rv = s.ranges[q];
        let rr = range_of(q, rv);
        assert(s.ranges.dom().contains(q));
        assert(rr.wf());
        lemma_outstanding_member(s.jobs, id, q, rv.0);
        assert(rv.3 as int + outstanding_len(s.jobs, q, rv.0) <= rv.2 as int);
        assert(rv.3 as int + jv.3 as int <= u128::MAX as int);
        // invariant of the post state, clause by clause
        lemma_commit_post_inv(s, id);
    }
}

/// In a fully confirmed tweak every remaining summand is 0.
proof fn lemma_sum_zero_elem_local(jobs2: Map<u64, JobVal>, q: u16, tw: u128, k: u64)
    requires
        jobs2.dom().finite(),
        jobs2.dom().contains(k),
        outstanding_len(jobs2, q, tw) == 0,
    ensures
        job_len_on(jobs2, q, tw)(k) == 0,
{
    let f = job_len_on(jobs2, q, tw);
    lemma_sum_remove(jobs2.dom(), k, f);
    assert forall|j: u64| jobs2.dom().remove(k).contains(j) implies #[trigger] f(j) >= 0 by {}
    lemma_sum_nonneg(jobs2.dom().remove(k), f);
}

/// The post state of a found commit satisfies the invariant.
proof fn lemma_commit_post_inv(s: StoreView, id: u64)
    requires
        inv(s),
        s.jobs.dom().contains(id),
        !commit_spec(s, id).fatal,
    ensures
        inv(commit_spec(s, id).post),
{
    let jv = s.jobs[id];
    let q = jv.0;
    let rv = s.ranges[q];
    let rr = range_of(q, rv);
    let step = commit_spec(s, id);
    let post = step.post;
    let rr2 = rr.committed_range_spec(jv.3);
    let jobs2 = s.jobs.remove(id);
    let kc2 = (rv.3 + jv.3) as u128;
    lemma_outstanding_member(s.jobs, id, q, rv.0);
    lemma_outstanding_remove(s.jobs, id, q, rv.0);
    assert(jobs2.dom() =~= s.jobs.dom().remove(id));
    let advanced = kc2 == u128::MAX && rv.0 != rv.1;
    // no lease remains on range q when its tweak is fully confirmed
    if kc2 == u128::MAX {
        assert(rv.2 == u128::MAX);
        assert(outstanding_len(jobs2, q, rv.0) == 0) by {
            assert forall|k: u64| jobs2.dom().contains(k) implies #[trigger] job_len_on(
                jobs2,
                q,
                rv.0,
            )(k) >= 0 by {}
            lemma_sum_nonneg(jobs2.dom(), job_len_on(jobs2, q, rv.0));
        }
        assert forall|k: u64| jobs2.dom().contains(k) implies (#[trigger] jobs2[k]).0 != q by {
            if jobs2[k].0 == q {
                assert(s.jobs.dom().contains(k));
                assert(s.jobs[k].1 == rv.0);
                lemma_sum_zero_elem_local(jobs2, q, rv.0, k);
                assert(job_len_on(jobs2, q, rv.0)(k) == jobs2[k].3 as int);
                assert(s.jobs[k].3 >= 1);
            }
        }
    }
    // range records stay well-formed
    assert forall|r: u16| post.ranges.dom().contains(r) implies (#[trigger] range_of(
        r,
        post.ranges[r],
    )).wf() by {
        if r == q {
            assert(range_of(q, rr2.spec_value()) == rr2);
        }
    }
    // available ranges still hold undispatched keys
    assert forall|r: u16| post.avail.contains(r) implies post.ranges.dom().contains(r) && (
    #[trigger] post.ranges[r]).2 < u128::MAX by {
        if r == q {
            // q stays in the available set only when commit_work left
            // it active, and then its watermark is 0 or unchanged
            assert(rr.committed_active_spec(jv.3));
            if kc2 == u128::MAX {
                assert(rr2.key_progress == 0);
            } else {
                assert(rr2.key_progress == rv.2);
            }
        } else {
            assert(s.avail.contains(r));
            assert(s.ranges[r].2 < u128::MAX);
        }
    }
    // remaining leases still sit inside their ranges
    assert forall|j: u64| #[trigger] post.jobs.dom().contains(j) implies {
        let jx = post.jobs[j];
        &&& post.ranges.dom().contains(jx.0)
        &&& jx.1 == post.ranges[jx.0].0
        &&& jx.3 >= 1
        &&& jx.2 >= 1
        &&& jx.2 as int + jx.3 as int - 1 <= post.ranges[jx.0].2 as int
    } by {
        let jx = post.jobs[j];
        assert(s.jobs.dom().contains(j));
        assert(jx == s.jobs[j]);
        if jx.0 == q {
            assert(!advanced);
        }
    }
    // the dispatched prefix still covers confirmed plus outstanding
    assert forall|r: u16| post.ranges.dom().contains(r) implies {
        let rx = #[trigger] post.ranges[r];
        rx.3 as int + outstanding_len(post.jobs, r, rx.0) <= rx.2 as int
    } by {
        let rx = post.ranges[r];
        if r == q {
            if advanced {
                assert(rx == (((rv.0 + 1) as u128, rv.1, 0u128, 0u128)));
                assert(outstanding_len(jobs2, q, rx.0) == 0) by {
                    assert forall|k: u64| jobs2.dom().contains(k) implies #[trigger] job_len_on(
                        jobs2,
                        q,
                        rx.0,
                    )(k) == 0 by {
                        assert(jobs2[k].0 != q);
                    }
                    lemma_sum_zero_fn(jobs2.dom(), job_len_on(jobs2, q, rx.0));
                }
            } else {
                assert(rx == ((rv.0, rv.1, rv.2, kc2)));
                assert(outstanding_len(jobs2, q, rv.0) == outstanding_len(s.jobs, q, rv.0)
                    - jv.3 as int);
            }
        } else {
            assert(rx == s.ranges[r]);
            lemma_outstanding_remove(s.jobs, id, r, rx.0);
            assert(job_len_on(s.jobs, r, rx.0)(id) >= 0);
        }
    }
    // disjointness and the free pool
    assert forall|j1: u64, j2: u64|
        j1 != j2 && post.jobs.dom().contains(j1) && post.jobs.dom().contains(
            j2,
        ) implies leases_disjoint(#[trigger] post.jobs[j1], #[trigger] post.jobs[j2]) by {
        assert(s.jobs.dom().contains(j1) && s.jobs.dom().contains(j2));
    }
    assert forall|j: u64| post.free.contains(j) implies !(#[trigger] post.jobs.dom().contains(
        j,
    )) by {
        if j != id {
            assert(s.free.contains(j));
        }
    }
}

/// Every nonempty finite set of ids has a least element.
proof fn lemma_finite_set_min(s: Set<u64>)
    requires
        s.finite(),
        set_nonempty(s),
    ensures
        exists|m: u64| #[trigger] is_min_of(s, m),
    decreases s.len(),
{
    let x = choose|x: u64| s.contains(x);
    let rest = s.remove(x);
    if set_nonempty(rest) {
        lemma_finite_set_min(rest);
        let m = choose|m: u64| #[trigger] is_min_of(rest, m);
        if m <= x {
            assert(is_min_of(s, m)) by {
                assert forall|k: u64| #[trigger] s.contains(k) implies m <= k by {
                    if k != x {
                        assert(rest.contains(k));
                    }
                }
            }
        } else {
            assert(is_min_of(s, x)) by {
                assert forall|k: u64| #[trigger] s.contains(k) implies x <= k by {
                    if k != x {
                        assert(rest.contains(k));
                    }
                }
            }
        }
    } else {
        assert(is_min_of(s, x)) by {
            assert forall|k: u64| #[trigger] s.contains(k) implies x <= k by {
                if k != x {
                    assert(rest.contains(k));
                }
            }
        }
    }
}

/// Every nonempty finite set of ids has a greatest element.
proof fn lemma_finite_set_max(s: Set<u64>)
    requires
        s.finite(),
        set_nonempty(s),
    ensures
        exists|m: u64| #[trigger] is_max_of(s, m),
    decreases s.len(),
{
    let x = choose|x: u64| s.contains(x);
    let rest = s.remove(x);
    if set_nonempty(rest) {
        lemma_finite_set_max(rest);
        let m = choose|m: u64| #[trigger] is_max_of(rest, m);
        if m >= x {
            assert(is_max_of(s, m)) by {
                assert forall|k: u64| #[trigger] s.contains(k) implies k <= m by {
                    if k != x {
                        assert(rest.contains(k));
                    }
                }
            }
        } else {
            assert(is_max_of(s, x)) by {
                assert forall|k: u64| #[trigger] s.contains(k) implies k <= x by {
                    if k != x {
                        assert(rest.contains(k));
                    }
                }
            }
        }
    } else {
        assert(is_max_of(s, x)) by {
            assert forall|k: u64| #[trigger] s.contains(k) implies k <= x by {
                if k != x {
                    assert(rest.contains(k));
                }
            }
        }
    }
}

/// When some lease is stale there is a first one: stale, with every
/// smaller outstanding id fresh.
proof fn lemma_first_stale_exists(jobs: Map<u64, JobVal>, now: u64, timeout: u64)
    requires
        jobs.dom().finite(),
        stale_exists(jobs, now, timeout),
    ensures
        is_first_stale(jobs, now, timeout, first_stale_id(jobs, now, timeout)),
{
    let stale_ids = Set::new(
        |j: u64| jobs.dom().contains(j) && job_of(j, jobs[j]).is_stale(now, timeout),
    );
    assert(stale_ids.finite()) by {
        assert(stale_ids.subset_of(jobs.dom()));
        vstd::set_lib::lemma_len_subset(stale_ids, jobs.dom());
    }
    let w = choose|j: u64|
        jobs.dom().contains(j) && (#[trigger] job_of(j, jobs[j])).is_stale(now, timeout);
    assert(stale_ids.contains(w));
    assert(set_nonempty(stale_ids));
    lemma_finite_set_min(stale_ids);
    let m = choose|m: u64| #[trigger] is_min_of(stale_ids, m);
    assert(is_first_stale(jobs, now, timeout, m)) by {
        assert forall|i: u64|
            i < m && #[trigger] jobs.dom().contains(i) implies !job_of(i, jobs[i]).is_stale(
            now,
            timeout,
        ) by {
            if job_of(i, jobs[i]).is_stale(now, timeout) {
                assert(stale_ids.contains(i));
            }
        }
    }
}

/// The id the ledger draws next is never outstanding: a recycled id
/// sits outside the job table by the invariant, and a fresh id sits
/// outside the outstanding id interval by construction.
proof fn lemma_next_id_fresh(s: StoreView)
    requires
        inv(s),
    ensures
        next_id_spec(s.jobs.dom(), s.free) matches Some(id) ==> !s.jobs.dom().contains(id),
{
    match next_id_spec(s.jobs.dom(), s.free) {
        Option::None => {},
        Option::Some(id) => {
            assert(!s.jobs.dom().contains(id)) by {
                if set_nonempty(s.free) {
                    lemma_finite_set_min(s.free);
                    let m = choose|m: u64| #[trigger] is_min_of(s.free, m);
                    assert(crate::state::set_min(s.free) == m);
                    assert(s.free.contains(m));
                } else if !set_nonempty(s.jobs.dom()) {
                    if s.jobs.dom().contains(id) {
                        assert(set_nonempty(s.jobs.dom()));
                    }
                } else {
                    lemma_finite_set_min(s.jobs.dom());
                    lemma_finite_set_max(s.jobs.dom());
                    let mn = choose|m: u64| #[trigger] is_min_of(s.jobs.dom(), m);
                    let mx = choose|m: u64| #[trigger] is_max_of(s.jobs.dom(), m);
                    assert(crate::state::set_min(s.jobs.dom()) == mn);
                    assert(crate::state::set_max(s.jobs.dom()) == mx);
                }
            }
        },
    }
}

/// The renewal branch preserves the invariant: the re-issued lease
/// keeps its range, tweak, start key and length, so every clause
/// carries over.
proof fn lemma_acquire_renew_inv(
    s: StoreView,
    pref_job_size: u64,
    now: u64,
    timeout: u64,
    pick: u16,
)
    requires
        inv(s),
        stale_exists(s.jobs, now, timeout),
    ensures
        inv(acquire_spec(s, pref_job_size, now, timeout, pick).post),
{
    let post = acquire_spec(s, pref_job_size, now, timeout, pick).post;
    lemma_first_stale_exists(s.jobs, now, timeout);
    let j = crate::state::first_stale_id(s.jobs, now, timeout);
    let jv = s.jobs[j];
    let renewed = (jv.0, jv.1, jv.2, jv.3, now);
    let jobs2 = s.jobs.insert(j, renewed);
    assert(jobs2.dom() =~= s.jobs.dom());
    assert forall|r: u16| post.ranges.dom().contains(r) implies {
        let rx = #[trigger] post.ranges[r];
        rx.3 as int + outstanding_len(post.jobs, r, rx.0) <= rx.2 as int
    } by {
        lemma_outstanding_renew(s.jobs, j, renewed, r, s.ranges[r].0);
        assert(s.ranges[r].3 as int + outstanding_len(s.jobs, r, s.ranges[r].0)
            <= s.ranges[r].2 as int);
    }
    assert forall|j1: u64, j2: u64|
        j1 != j2 && post.jobs.dom().contains(j1) && post.jobs.dom().contains(
            j2,
        ) implies leases_disjoint(#[trigger] post.jobs[j1], #[trigger] post.jobs[j2]) by {
        assert(leases_disjoint(s.jobs[j1], s.jobs[j2]));
    }
    assert(inv(post));
}

/// Acquiring preserves the invariant; the issued id is always fresh;
/// and the only possible fatal outcome is a saturated id space.
pub proof fn lemma_acquire_preserves_inv(
    s: StoreView,
    pref_job_size: u64,
    now: u64,
    timeout: u64,
    pick: u16,
)
    requires
        inv(s),
        pref_job_size >= 1,
        !stale_exists(s.jobs, now, timeout) && set_nonempty(s.avail) ==> s.avail.contains(pick),
    ensures
        acquire_spec(s, pref_job_size, now, timeout, pick).fatal ==> next_id_spec(
            s.jobs.dom(),
            s.free,
        ) is None,
        inv(acquire_spec(s, pref_job_size, now, timeout, pick).post),
{
    let step = acquire_spec(s, pref_job_size, now, timeout, pick);
    let post = step.post;
    if stale_exists(s.jobs, now, timeout) {
        lemma_acquire_renew_inv(s, pref_job_size, now, timeout, pick);
    } else {
        match next_id_spec(s.jobs.dom(), s.free) {
            Option::None => {
                assert(post == s);
            },
            Option::Some(id) => {
                lemma_next_id_fresh(s);
                if !set_nonempty(s.avail) {
                    assert(post == s);
                } else {
                    assert(s.avail.contains(pick));
                    assert(s.ranges.dom().contains(pick));
                    let rv = s.ranges[pick];
                    assert(rv.2 < u128::MAX);
                    assert(!step.fatal);
                    lemma_acquire_carve_inv(s, pref_job_size, now, timeout, pick, id);
                }
            },
        }
    }
}

/// The post state of a fresh carve satisfies the invariant.
proof fn lemma_acquire_carve_inv(
    s: StoreView,
    pref_job_size: u64,
    now: u64,
    timeout: u64,
    pick: u16,
    id: u64,
)
    requires
        inv(s),
        pref_job_size >= 1,
        !stale_exists(s.jobs, now, timeout),
        next_id_spec(s.jobs.dom(), s.free) == Some(id),
        !s.jobs.dom().contains(id),
        set_nonempty(s.avail),
        s.avail.contains(pick),
    ensures
        inv(acquire_spec(s, pref_job_size, now, timeout, pick).post),
{
    let step = acquire_spec(s, pref_job_size, now, timeout, pick);
    let post = step.post;
    let rv = s.ranges[pick];
    assert(s.ranges.dom().contains(pick));
    assert(rv.2 < u128::MAX);
    let rr = range_of(pick, rv);
    let job = rr.derived_job_spec(id, pref_job_size, now);
    let jobval = job.spec_value();
    let kp2 = (rv.2 + job.len) as u128;
    assert(1 <= job.len as int && job.len as int <= u128::MAX as int - rv.2 as int);
    assert(post.jobs == s.jobs.insert(id, jobval));
    assert(post.ranges == s.ranges.insert(pick, (rv.0, rv.1, kp2, rv.3)));
    assert(post.jobs.dom() =~= s.jobs.dom().insert(id));
    // range records stay well-formed
    assert forall|r: u16| post.ranges.dom().contains(r) implies (#[trigger] range_of(
        r,
        post.ranges[r],
    )).wf() by {
        if r != pick {
            assert(range_of(r, s.ranges[r]).wf());
        } else {
            assert(range_of(pick, s.ranges[pick]).wf());
        }
    }
    // available ranges still hold undispatched keys
    assert forall|r: u16| post.avail.contains(r) implies post.ranges.dom().contains(r) && (
    #[trigger] post.ranges[r]).2 < u128::MAX by {
        assert(s.avail.contains(r));
        if r == pick {
            assert(post.avail.contains(pick));
            assert(kp2 != u128::MAX);
        }
    }
    // leases sit inside their ranges
    assert forall|j: u64| #[trigger] post.jobs.dom().contains(j) implies {
        let jx = post.jobs[j];
        &&& post.ranges.dom().contains(jx.0)
        &&& jx.1 == post.ranges[jx.0].0
        &&& jx.3 >= 1
        &&& jx.2 >= 1
        &&& jx.2 as int + jx.3 as int - 1 <= post.ranges[jx.0].2 as int
    } by {
        if j != id {
            assert(s.jobs.dom().contains(j));
            let jx = s.jobs[j];
            assert(s.ranges.dom().contains(jx.0));
            assert(jx.1 == s.ranges[jx.0].0);
            assert(jx.2 as int + jx.3 as int - 1 <= s.ranges[jx.0].2 as int);
            if jx.0 == pick {
                assert(post.ranges[pick].2 == kp2);
            }
        } else {
            assert(post.jobs[id] == jobval);
            assert(jobval.2 == rv.2 + 1);
            assert(jobval.3 == job.len);
            assert(post.ranges[pick].0 == rv.0);
        }
    }
    // confirmed plus outstanding still fits the dispatched prefix
    assert forall|r: u16| post.ranges.dom().contains(r) implies {
        let rx = #[trigger] post.ranges[r];
        rx.3 as int + outstanding_len(post.jobs, r, rx.0) <= rx.2 as int
    } by {
        let rx = post.ranges[r];
        lemma_outstanding_insert(s.jobs, id, jobval, r, rx.0);
        if r == pick {
            assert(rx.0 == rv.0 && rx.3 == rv.3 && rx.2 == kp2);
            assert(rv.3 as int + outstanding_len(s.jobs, pick, rv.0) <= rv.2 as int);
            assert(outstanding_len(post.jobs, pick, rv.0) == outstanding_len(s.jobs, pick, rv.0)
                + job.len as int);
        } else {
            assert(rx == s.ranges[r]);
            assert(s.ranges[r].3 as int + outstanding_len(s.jobs, r, rx.0) <= rx.2 as int);
            assert(jobval.0 != r);
        }
    }
    // the fresh lease starts above every earlier lease of its range
    assert forall|j1: u64, j2: u64|
        j1 != j2 && post.jobs.dom().contains(j1) && post.jobs.dom().contains(
            j2,
        ) implies leases_disjoint(#[trigger] post.jobs[j1], #[trigger] post.jobs[j2]) by {
        if j1 != id && j2 != id {
            assert(leases_disjoint(s.jobs[j1], s.jobs[j2]));
        } else {
            let other = if j1 == id {
                j2
            } else {
                j1
            };
            assert(s.jobs.dom().contains(other));
            let ov = s.jobs[other];
            if ov.0 == pick && ov.1 == rv.0 {
                assert(ov.2 as int + ov.3 as int - 1 <= rv.2 as int);
                assert(jobval.2 == rv.2 + 1);
            }
        }
    }
    // recycled ids stay clear of outstanding ones
    assert forall|j: u64| #[trigger] post.free.contains(j) implies !post.jobs.dom().contains(
        j,
    ) by {
        if set_nonempty(s.free) {
            assert(s.free.contains(j));
            assert(!s.jobs.dom().contains(j));
            lemma_finite_set_min(s.free);
            let m = choose|m: u64| #[trigger] is_min_of(s.free, m);
            assert(crate::state::set_min(s.free) == m);
            if j == id {
                assert(s.free.contains(id));
            }
        } else {
            assert(s.free.contains(j));
        }
    }
    assert(inv(post));
}

/// What a well-formed store promises of every range at any
/// observation point: nothing unconfirmed is ever counted as
/// confirmed, so the committed counter never passes the dispatch
/// watermark.
pub proof fn lemma_committed_below_watermark(s: StoreView, r: u16)
    requires
        inv(s),
        s.ranges.dom().contains(r),
    ensures
        s.ranges[r].3 <= s.ranges[r].2,
{
    assert(range_of(r, s.ranges[r]).wf());
}

/// Glue between the acquire operation's contract and the laws: any
/// outcome `db_create_job` reports over a well-formed store leaves a
/// well-formed store.  Even a zero preferred length is covered: the
/// renewal branch never reads it, and a zero-length carve cannot end
/// in a reported outcome.
pub proof fn lemma_acquire_outcome_inv(
    s: StoreView,
    pref_job_size: u64,
    now: u64,
    pick: u16,
    out: Option<crate::records::JobRecord>,
    post: StoreView,
)
    requires
        inv(s),
        crate::database::acquire_post_matches(s, pref_job_size, now, pick, out, post),
    ensures
        inv(post),
{
    let timeout = crate::database::JOB_TIMEOUT_SECS;
    let step = acquire_spec(s, pref_job_size, now, timeout, pick);
    if stale_exists(s.jobs, now, timeout) {
        lemma_acquire_renew_inv(s, pref_job_size, now, timeout, pick);
    } else {
        match next_id_spec(s.jobs.dom(), s.free) {
            Option::None => {
                assert(step.fatal);
            },
            Option::Some(id) => {
                if set_nonempty(s.avail) {
                    // a reported outcome rules out the fatal carves
                    assert(s.avail.contains(pick));
                    assert(s.ranges.dom().contains(pick));
                    assert(pref_job_size >= 1);
                    lemma_next_id_fresh(s);
                    lemma_acquire_carve_inv(s, pref_job_size, now, timeout, pick, id);
                }
            },
        }
    }
}

/// Initialization: writing well-formed range records whose confirmed
/// counter equals their dispatch watermark into a store with no
/// outstanding leases yields a well-formed store, and touches neither
/// the job table nor the free pool.
pub proof fn lemma_init_preserves_inv(s: StoreView, rs: Seq<RangeRecord>)
    requires
        inv(s),
        s.jobs == Map::<u64, JobVal>::empty(),
        forall|i: int|
            0 <= i < rs.len() ==> (#[trigger] rs[i]).wf() && rs[i].key_progress
                == rs[i].key_committed_progress,
    ensures
        inv(init_fold(s, rs)),
        init_fold(s, rs).jobs == s.jobs,
        init_fold(s, rs).free == s.free,
    decreases rs.len(),
{
    if rs.len() > 0 {
        lemma_init_preserves_inv(s, rs.drop_last());
        let mid = init_fold(s, rs.drop_last());
        let r = rs.last();
        let post = init_step(mid, r);
        assert(r.wf() && r.key_progress == r.key_committed_progress);
        assert(range_of(r.id, r.spec_value()) == r);
        assert forall|x: u16| post.ranges.dom().contains(x) implies (#[trigger] range_of(
            x,
            post.ranges[x],
        )).wf() by {
            if x != r.id {
                assert(range_of(x, mid.ranges[x]).wf());
            }
        }
        assert forall|x: u16| #[trigger] post.avail.contains(x) implies post.ranges.dom().contains(
            x,
        ) && post.ranges[x].2 < u128::MAX by {
            if x != r.id {
                assert(mid.avail.contains(x));
            }
        }
        assert(post.jobs.dom() =~= Set::<u64>::empty());
        assert forall|x: u16| post.ranges.dom().contains(x) implies {
            let rx = #[trigger] post.ranges[x];
            rx.3 as int + outstanding_len(post.jobs, x, rx.0) <= rx.2 as int
        } by {
            let rx = post.ranges[x];
            assert(outstanding_len(post.jobs, x, rx.0) == 0);
            if x != r.id {
                assert(mid.ranges.dom().contains(x));
                assert(range_of(x, mid.ranges[x]).wf());
            }
        }
        assert(inv(post));
    }
}

/// Monotonic watermark under acquire: no range's tweak cursor moves,
/// and no dispatch watermark decreases.
pub proof fn lemma_acquire_watermark(
    s: StoreView,
    pref_job_size: u64,
    now: u64,
    timeout: u64,
    pick: u16,
)
    requires
        inv(s),
    ensures
        forall|r: u16|
            #![trigger acquire_spec(s, pref_job_size, now, timeout, pick).post.ranges[r]]
            s.ranges.dom().contains(r) ==> {
                let post = acquire_spec(s, pref_job_size, now, timeout, pick).post;
                &&& post.ranges.dom().contains(r)
                &&& post.ranges[r].0 == s.ranges[r].0
                &&& post.ranges[r].2 >= s.ranges[r].2
            },
{
}

/// Monotonic watermark under commit: each range's pair (tweak cursor,
/// dispatch watermark) only moves forward lexicographically.
pub proof fn lemma_commit_watermark(s: StoreView, id: u64)
    requires
        inv(s),
    ensures
        forall|r: u16|
            #![trigger commit_spec(s, id).post.ranges[r]]
            s.ranges.dom().contains(r) ==> {
                let post = commit_spec(s, id).post;
                &&& post.ranges.dom().contains(r)
                &&& (post.ranges[r].0 > s.ranges[r].0 || (post.ranges[r].0 == s.ranges[r].0
                    && post.ranges[r].2 >= s.ranges[r].2))
            },
{
    if s.jobs.dom().contains(id) {
        lemma_commit_preserves_inv(s, id);
        let q = s.jobs[id].0;
        assert(range_of(q, s.ranges[q]).wf());
    }
}

/// No silent loss: when a stale lease exists, acquiring re-issues the
/// first one with identical work content — same range, tweak, start
/// key and length — under the same id, with a fresh lease time, and
/// the set of outstanding leases is unchanged.
pub proof fn lemma_reclaim_keeps_content(
    s: StoreView,
    pref_job_size: u64,
    now: u64,
    timeout: u64,
    pick: u16,
)
    requires
        inv(s),
        stale_exists(s.jobs, now, timeout),
    ensures
        ({
            let step = acquire_spec(s, pref_job_size, now, timeout, pick);
            let j = first_stale_id(s.jobs, now, timeout);
            let jv = s.jobs[j];
            &&& s.jobs.dom().contains(j)
            &&& job_of(j, jv).is_stale(now, timeout)
            &&& step.job == Some(job_of(j, (jv.0, jv.1, jv.2, jv.3, now)))
            &&& !step.fatal
            &&& step.post.jobs.dom() == s.jobs.dom()
            &&& step.post.jobs[j] == (jv.0, jv.1, jv.2, jv.3, now)
            &&& step.post.ranges == s.ranges
            &&& step.post.free == s.free
        }),
{
    lemma_first_stale_exists(s.jobs, now, timeout);
    let j = first_stale_id(s.jobs, now, timeout);
    let jv = s.jobs[j];
    assert(s.jobs.insert(j, (jv.0, jv.1, jv.2, jv.3, now)).dom() =~= s.jobs.dom());
}

/// Id recycling round trip, in general: whenever a fresh job is
/// carved (no stale lease, an available range picked) while the free
/// pool is non-empty, the issued id is exactly the smallest key of
/// the old pool — after `commit(id)` left the pool holding only `id`,
/// that is `id` itself — and exactly that key is deleted from the
/// pool, so it cannot be issued again until a commit frees it once
/// more.
pub proof fn lemma_id_recycling(
    s: StoreView,
    pref_job_size: u64,
    now: u64,
    timeout: u64,
    pick: u16,
)
    requires
        inv(s),
        pref_job_size >= 1,
        !stale_exists(s.jobs, now, timeout),
        set_nonempty(s.free),
        set_nonempty(s.avail),
        s.avail.contains(pick),
    ensures
        ({
            let step = acquire_spec(s, pref_job_size, now, timeout, pick);
            let m = set_min(s.free);
            &&& is_min_of(s.free, m)
            &&& !step.fatal
            &&& step.job matches Some(issued) && issued.id == m
            &&& step.post.free == s.free.remove(m)
            &&& !step.post.free.contains(m)
        }),
{
    lemma_finite_set_min(s.free);
    let m0 = choose|m: u64| #[trigger] is_min_of(s.free, m);
    assert(set_min(s.free) == m0) by {
        let m = set_min(s.free);
        assert(is_min_of(s.free, m));
    }
    assert(s.ranges.dom().contains(pick));
    assert(s.ranges[pick].2 < u128::MAX);
}

/// The other half of the recycling round trip: an acquire with an
/// empty free pool leaves the pool empty — a freshly minted id never
/// enters it, so `pop` answers `None` exactly while nothing was
/// committed since the pool drained.
pub proof fn lemma_empty_pool_untouched(
    s: StoreView,
    pref_job_size: u64,
    now: u64,
    timeout: u64,
    pick: u16,
)
    requires
        !set_nonempty(s.free),
    ensures
        acquire_spec(s, pref_job_size, now, timeout, pick).post.free == s.free,
{
}

/// Progress monotonicity under acquire: the total count of open
/// tweaks does not change at all — dispatching work confirms nothing.
pub proof fn lemma_acquire_progress(
    s: StoreView,
    pref_job_size: u64,
    now: u64,
    timeout: u64,
    pick: u16,
)
    requires
        inv(s),
    ensures
        remaining_total(acquire_spec(s, pref_job_size, now, timeout, pick).post.ranges)
            == remaining_total(s.ranges),
{
    let post = acquire_spec(s, pref_job_size, now, timeout, pick).post;
    if post.ranges != s.ranges {
        let rv = s.ranges[pick];
        assert(s.ranges.dom().contains(pick));
        assert(post.ranges.dom() =~= s.ranges.dom());
        lemma_sum_congruence(
            s.ranges.dom(),
            range_tweaks_left(post.ranges),
            range_tweaks_left(s.ranges),
        );
    }
}

/// Progress monotonicity under commit: the total count of open tweaks
/// never increases, and it strictly drops when a tweak is finished.
pub proof fn lemma_commit_progress(s: StoreView, id: u64)
    requires
        inv(s),
    ensures
        remaining_total(commit_spec(s, id).post.ranges) <= remaining_total(s.ranges),
{
    let post = commit_spec(s, id).post;
    if post.ranges != s.ranges {
        let jv = s.jobs[id];
        let q = jv.0;
        let rv = s.ranges[q];
        let rr = range_of(q, rv);
        lemma_commit_preserves_inv(s, id);
        assert(rr.wf());
        lemma_outstanding_member(s.jobs, id, q, rv.0);
        assert(post.ranges.dom() =~= s.ranges.dom());
        assert forall|r: u16|
            s.ranges.dom().contains(r) implies #[trigger] range_tweaks_left(post.ranges)(r)
            <= range_tweaks_left(s.ranges)(r) by {
            if r == q {
                let rr2 = rr.committed_range_spec(jv.3);
                assert(post.ranges[q] == rr2.spec_value());
                assert(rv.3 < u128::MAX);
            } else {
                assert(post.ranges[r] == s.ranges[r]);
            }
        }
        lemma_sum_le(s.ranges.dom(), range_tweaks_left(post.ranges), range_tweaks_left(s.ranges));
    }
}

/// The converse reading of the progress figure: under the invariant
/// the remaining total reaches 0 only when every range is retired, so
/// a full progress report means the whole space was confirmed.
pub proof fn lemma_no_work_left_means_retired(s: StoreView, r: u16)
    requires
        inv(s),
        remaining_total(s.ranges) == 0,
        s.ranges.dom().contains(r),
    ensures
        range_of(r, s.ranges[r]).is_retired(),
{
    let f = range_tweaks_left(s.ranges);
    lemma_sum_remove(s.ranges.dom(), r, f);
    assert forall|k: u16|
        s.ranges.dom().remove(r).contains(k) implies #[trigger] f(k) >= 0 by {
        assert(range_of(k, s.ranges[k]).wf());
    }
    lemma_sum_nonneg(s.ranges.dom().remove(r), f);
    assert(range_of(r, s.ranges[r]).wf());
}

/// Exhaustion terminal: once every range is retired there are no
/// outstanding leases and no available ranges; every acquire returns
/// "exhausted" without touching the store, whatever range the picker
/// names, and no open tweak remains anywhere.
pub proof fn lemma_exhaustion_terminal(
    s: StoreView,
    pref_job_size: u64,
    now: u64,
    timeout: u64,
    pick: u16,
)
    requires
        inv(s),
        forall|r: u16|
            s.ranges.dom().contains(r) ==> (#[trigger] range_of(r, s.ranges[r])).is_retired(),
    ensures
        ({
            let step = acquire_spec(s, pref_job_size, now, timeout, pick);
            &&& step.job is None
            &&& !step.fatal
            &&& step.post == s
        }),
        remaining_total(s.ranges) == 0,
{
    assert forall|j: u64| !(#[trigger] s.jobs.dom().contains(j)) by {
        if s.jobs.dom().contains(j) {
            let q = s.jobs[j].0;
            let rv = s.ranges[q];
            assert(s.ranges.dom().contains(q));
            assert(range_of(q, rv).is_retired());
            assert(range_of(q, rv).wf());
            assert(rv.3 == u128::MAX && rv.2 == u128::MAX);
            lemma_outstanding_member(s.jobs, j, q, rv.0);
            assert(rv.3 as int + outstanding_len(s.jobs, q, rv.0) <= rv.2 as int);
            assert(s.jobs[j].3 >= 1);
        }
    }
    assert(!stale_exists(s.jobs, now, timeout)) by {
        if stale_exists(s.jobs, now, timeout) {
            let j = choose|j: u64|
                s.jobs.dom().contains(j) && (#[trigger] job_of(j, s.jobs[j])).is_stale(
                    now,
                    timeout,
                );
            assert(s.jobs.dom().contains(j));
        }
    }
    assert(!set_nonempty(s.avail)) by {
        if set_nonempty(s.avail) {
            let k = choose|k: u16| s.avail.contains(k);
            assert(s.avail.contains(k));
            assert(s.ranges[k].2 < u128::MAX);
            assert(range_of(k, s.ranges[k]).is_retired());
            assert(range_of(k, s.ranges[k]).wf());
        }
    }
    assert(!set_nonempty(s.jobs.dom())) by {
        if set_nonempty(s.jobs.dom()) {
            let j = choose|j: u64| s.jobs.dom().contains(j);
            assert(s.jobs.dom().contains(j));
        }
    }
    assert(next_id_spec(s.jobs.dom(), s.free) is Some);
    assert forall|r: u16|
        s.ranges.dom().contains(r) implies #[trigger] range_tweaks_left(s.ranges)(r) == 0 by {
        assert(range_of(r, s.ranges[r]).is_retired());
    }
    lemma_sum_zero_fn(s.ranges.dom(), range_tweaks_left(s.ranges));
}

} // verus!
