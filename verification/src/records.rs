//! The two record types of the ledger: one fixed partition of the
//! tweak axis (`RangeRecord`) and one outstanding lease of contiguous
//! key-offset work (`JobRecord`).

use vstd::prelude::*;

verus! {

/// Tweaks per range: the 128-bit tweak axis split into 65536 fixed
/// partitions.
pub const TWEAKS_PER_RANGE: u128 = (u128::MAX / 0x10000) + 1;

/// Width of a range as an offset from its first tweak to its last.
pub const TWEAKS_PER_RANGE_ID_VICE: u128 = TWEAKS_PER_RANGE - 1;

/// Number of ranges the tweak axis is split into.
pub const RANGE_COUNT: u32 = 0x10000;

/// One outstanding lease of contiguous work: the key offsets
/// `start_key ..= start_key + len - 1` within `tweak_key`'s key space.
#[derive(Copy, Clone, Debug, PartialEq, Eq, Structural)]
pub struct JobRecord {
    pub id: u64,
    pub range_id: u16,
    pub tweak_key: u128,
    pub start_key: u128,
    pub len: u64,
    pub start_time: u64,
}

impl JobRecord {
    /// Rebuilds a job from its table key and value.
    pub fn from_data(k: u64, v: &(u16, u128, u128, u64, u64)) -> (r: Self)
        ensures
            r == (JobRecord {
                id: k,
                range_id: v.0,
                tweak_key: v.1,
                start_key: v.2,
                len: v.3,
                start_time: v.4,
            }),
    {
        Self { id: k, range_id: v.0, tweak_key: v.1, start_key: v.2, len: v.3, start_time: v.4 }
    }

    /// The job's table value, everything but the id.
    pub fn get_value(&self) -> (r: (u16, u128, u128, u64, u64))
        ensures
            r == self.spec_value(),
    {
        (self.range_id, self.tweak_key, self.start_key, self.len, self.start_time)
    }

    /// The job's table value as a spec-level tuple.
    pub open spec fn spec_value(self) -> (u16, u128, u128, u64, u64) {
        (self.range_id, self.tweak_key, self.start_key, self.len, self.start_time)
    }

    /// A lease is stale when more than `timeout` seconds have passed
    /// since it was issued or last renewed.
    pub open spec fn is_stale(self, now: u64, timeout: u64) -> bool {
        self.start_time <= now && now - self.start_time > timeout
    }
}

/// One fixed partition of the tweak axis and its progress cursors.
///
/// `tweak_current` is the tweak being exhausted right now;
/// `key_progress` is the highest key offset already dispatched within
/// it, `key_committed_progress` the count of key offsets confirmed
/// complete within it.
#[derive(Copy, Clone, Debug, PartialEq, Eq, Structural)]
pub struct RangeRecord {
    pub id: u16,
    pub tweak_current: u128,
    pub tweak_end: u128,
    pub key_progress: u128,
    pub key_committed_progress: u128,
}

impl RangeRecord {
    /// Well-formedness: the cursor sits inside the range, the range
    /// spans less than the whole axis, and nothing undispatched has
    /// been confirmed.
    pub open spec fn wf(self) -> bool {
        &&& self.tweak_current <= self.tweak_end
        &&& self.tweak_end - self.tweak_current < u128::MAX
        &&& self.key_committed_progress <= self.key_progress
    }

    /// Rebuilds a range from its table key and value.
    pub fn from_value(k: u16, v: &(u128, u128, u128, u128)) -> (r: Self)
        ensures
            r == (RangeRecord {
                id: k,
                tweak_current: v.0,
                tweak_end: v.1,
                key_progress: v.2,
                key_committed_progress: v.3,
            }),
    {
        Self {
            id: k,
            tweak_current: v.0,
            tweak_end: v.1,
            key_progress: v.2,
            key_committed_progress: v.3,
        }
    }

    /// The range's table value, everything but the id.
    pub fn value(&self) -> (r: (u128, u128, u128, u128))
        ensures
            r == self.spec_value(),
    {
        (self.tweak_current, self.tweak_end, self.key_progress, self.key_committed_progress)
    }

    /// The range's table value as a spec-level tuple.
    pub open spec fn spec_value(self) -> (u128, u128, u128, u128) {
        (self.tweak_current, self.tweak_end, self.key_progress, self.key_committed_progress)
    }

    /// A fresh range: partition number `id` of the tweak axis, with
    /// both progress cursors at zero.
    pub fn new(id: u16) -> (r: Self)
        ensures
            r == (RangeRecord {
                id,
                tweak_current: (id as u128 * TWEAKS_PER_RANGE) as u128,
                tweak_end: (id as u128 * TWEAKS_PER_RANGE + TWEAKS_PER_RANGE_ID_VICE) as u128,
                key_progress: 0,
                key_committed_progress: 0,
            }),
            r.wf(),
    {
        proof {
            assert(id as int * TWEAKS_PER_RANGE as int <= 0xffff * TWEAKS_PER_RANGE as int)
                by (nonlinear_arith)
                requires
                    id as int <= 0xffff,
            ;
        }
        let tweak_start: u128 = id as u128 * TWEAKS_PER_RANGE;
        Self {
            id,
            tweak_current: tweak_start,
            tweak_end: tweak_start + TWEAKS_PER_RANGE_ID_VICE,
            key_progress: 0,
            key_committed_progress: 0,
        }
    }

    /// How many tweaks of this range still hold unconfirmed work; 0
    /// exactly when the range is retired.
    pub open spec fn tweaks_left_spec(self) -> int {
        let t_left = self.tweak_end - self.tweak_current + 1;
        if t_left == 1 && self.key_committed_progress == u128::MAX {
            0
        } else {
            t_left
        }
    }

    /// A range is retired once its cursor sits on its last tweak and
    /// that tweak's key space is fully confirmed.
    pub open spec fn is_retired(self) -> bool {
        self.tweaks_left_spec() == 0
    }

    pub fn tweaks_left(&self) -> (r: u128)
        requires
            self.wf(),
        ensures
            r as int == self.tweaks_left_spec(),
    {
        let t_left = (self.tweak_end - self.tweak_current) + 1;
        if t_left == 1 && self.key_committed_progress == u128::MAX {
            0
        } else {
            t_left
        }
    }

    /// Length of the next job carved from this range: the preferred
    /// length, capped by the key space still undispatched in the
    /// current tweak.
    pub open spec fn job_len_spec(self, pref_job_size: u64) -> int {
        let room = u128::MAX - self.key_progress;
        if pref_job_size as int <= room {
            pref_job_size as int
        } else {
            room as int
        }
    }

    /// The job carved from this range by `create_job`.
    pub open spec fn derived_job_spec(self, job_id: u64, pref_job_size: u64, now_secs: u64) -> JobRecord {
        JobRecord {
            id: job_id,
            range_id: self.id,
            tweak_key: self.tweak_current,
            start_key: (self.key_progress + 1) as u128,
            len: self.job_len_spec(pref_job_size) as u64,
            start_time: now_secs,
        }
    }

    /// Carves the next job out of this range and advances the
    /// dispatch watermark past it.
    pub fn create_job(&mut self, job_id: u64, pref_job_size: u64, now_secs: u64) -> (r: JobRecord)
        requires
            old(self).key_progress < u128::MAX,
            pref_job_size >= 1,
        ensures
            r == old(self).derived_job_spec(job_id, pref_job_size, now_secs),
            r.len >= 1,
            r.start_key == old(self).key_progress + 1,
            r.start_key + r.len - 1 == final(self).key_progress,
            *final(self) == (RangeRecord {
                key_progress: (old(self).key_progress + r.len) as u128,
                ..*old(self)
            }),
    {
        let start_key = self.key_progress + 1;
        let room: u128 = u128::MAX - self.key_progress;
        let job_len: u64 = if (pref_job_size as u128) <= room {
            pref_job_size
        } else {
            room as u64
        };
        self.key_progress = self.key_progress + job_len as u128;
        JobRecord {
            id: job_id,
            range_id: self.id,
            tweak_key: self.tweak_current,
            start_key,
            len: job_len,
            start_time: now_secs,
        }
    }

    /// The range as `commit_work` leaves it.
    pub open spec fn committed_range_spec(self, work_len: u64) -> RangeRecord {
        let kc2 = (self.key_committed_progress + work_len) as u128;
        if kc2 == u128::MAX && self.tweak_current != self.tweak_end {
            RangeRecord {
                tweak_current: (self.tweak_current + 1) as u128,
                key_progress: 0,
                key_committed_progress: 0,
                ..self
            }
        } else {
            RangeRecord { key_committed_progress: kc2, ..self }
        }
    }

    /// Whether `commit_work` leaves the range able to yield more jobs.
    pub open spec fn committed_active_spec(self, work_len: u64) -> bool {
        let kc2 = (self.key_committed_progress + work_len) as u128;
        if kc2 == u128::MAX {
            self.tweak_current != self.tweak_end
        } else {
            self.key_progress != u128::MAX
        }
    }

    /// Folds a confirmed job length into the committed counter.  When
    /// the current tweak's key space is fully confirmed the range
    /// either retires (cursor already on the last tweak; returns
    /// false) or advances to the next tweak with both cursors reset.
    /// Returns whether the range is still available for new jobs.
    pub fn commit_work(&mut self, work_len: u64) -> (active: bool)
        requires
            old(self).tweak_current <= old(self).tweak_end,
            old(self).key_committed_progress as int + work_len as int <= u128::MAX as int,
        ensures
            *final(self) == old(self).committed_range_spec(work_len),
            active == old(self).committed_active_spec(work_len),
    {
        self.key_committed_progress = self.key_committed_progress + work_len as u128;
        if self.key_committed_progress == u128::MAX {
            if self.tweak_current == self.tweak_end {
                false
            } else {
                self.key_progress = 0;
                self.key_committed_progress = 0;
                self.tweak_current = self.tweak_current + 1;
                true
            }
        } else if self.key_progress == u128::MAX {
            false
        } else {
            true
        }
    }
}

} // verus!
