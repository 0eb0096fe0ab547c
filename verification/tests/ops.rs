//! End-to-end tests of the ledger operations on an in-memory store.

use nyash::database::{db_commit_job, db_create_job, db_get_progress, db_init_ranges};
use nyash::records::RangeRecord;
use rand::rngs::StdRng;
use rand::SeedableRng;
use redb::backends::InMemoryBackend;
use redb::Database;

fn mem_db() -> Database {
    Database::builder()
        .create_with_backend(InMemoryBackend::new())
        .expect("in-memory store")
}

fn rng() -> StdRng {
    StdRng::seed_from_u64(7)
}

fn limbs_low(limbs: [u32; 8]) -> u128 {
    assert_eq!(limbs[4..8], [0u32; 4]);
    (limbs[0] as u128)
        | ((limbs[1] as u128) << 32)
        | ((limbs[2] as u128) << 64)
        | ((limbs[3] as u128) << 96)
}

/// One range spanning 4 tweaks: the first acquire starts at key 1
/// with the preferred length, and committing it confirms exactly that
/// length.
#[test]
fn miniature_scenario() {
    let mut db = mem_db();
    let mut rng = rng();
    let ranges = vec![RangeRecord {
        id: 0,
        tweak_current: 0,
        tweak_end: 3,
        key_progress: 0,
        key_committed_progress: 0,
    }];
    db_init_ranges(&mut db, &ranges).unwrap();
    assert_eq!(limbs_low(db_get_progress(&db).unwrap()), 4);

    let job = db_create_job(&mut db, &mut rng, 3, 100).unwrap().unwrap();
    assert_eq!(job.range_id, 0);
    assert_eq!(job.tweak_key, 0);
    assert_eq!(job.start_key, 1);
    assert_eq!(job.len, 3);
    assert_eq!(job.start_time, 100);

    assert!(db_commit_job(&mut db, job.id).unwrap());
    // tweak-granular progress: an intra-tweak commit moves nothing
    assert_eq!(limbs_low(db_get_progress(&db).unwrap()), 4);

    // the next job continues where the first stopped
    let job2 = db_create_job(&mut db, &mut rng, 5, 200).unwrap().unwrap();
    assert_eq!(job2.start_key, 4);
    assert_eq!(job2.len, 5);
}

/// Concurrent leases from one range never overlap.
#[test]
fn no_overlap() {
    let mut db = mem_db();
    let mut rng = rng();
    let ranges = vec![RangeRecord {
        id: 0,
        tweak_current: 0,
        tweak_end: 0,
        key_progress: 0,
        key_committed_progress: 0,
    }];
    db_init_ranges(&mut db, &ranges).unwrap();

    let a = db_create_job(&mut db, &mut rng, 5, 100).unwrap().unwrap();
    let b = db_create_job(&mut db, &mut rng, 7, 101).unwrap().unwrap();
    let c = db_create_job(&mut db, &mut rng, 11, 102).unwrap().unwrap();
    assert_ne!(a.id, b.id);
    assert_ne!(b.id, c.id);
    for (x, y) in [(&a, &b), (&a, &c), (&b, &c)] {
        assert_eq!(x.tweak_key, y.tweak_key);
        assert!(x.start_key + x.len as u128 <= y.start_key
            || y.start_key + y.len as u128 <= x.start_key);
    }
    assert_eq!(a.start_key, 1);
    assert_eq!(b.start_key, 6);
    assert_eq!(c.start_key, 13);
}

/// A lease older than the timeout is re-issued with identical content
/// and a fresh lease time; a younger one is left alone.
#[test]
fn stale_lease_reappears() {
    let mut db = mem_db();
    let mut rng = rng();
    let ranges = vec![RangeRecord {
        id: 0,
        tweak_current: 0,
        tweak_end: 0,
        key_progress: 0,
        key_committed_progress: 0,
    }];
    db_init_ranges(&mut db, &ranges).unwrap();

    let job = db_create_job(&mut db, &mut rng, 5, 100).unwrap().unwrap();
    // not yet stale: 1200 seconds have not passed, so a fresh slice comes back
    let other = db_create_job(&mut db, &mut rng, 5, 1300).unwrap().unwrap();
    assert_ne!(other.start_key, job.start_key);

    // past the timeout the oldest lease is handed out again, unchanged
    // but for its lease time
    let renewed = db_create_job(&mut db, &mut rng, 9, 2000).unwrap().unwrap();
    assert_eq!(renewed.id, job.id);
    assert_eq!(renewed.range_id, job.range_id);
    assert_eq!(renewed.tweak_key, job.tweak_key);
    assert_eq!(renewed.start_key, job.start_key);
    assert_eq!(renewed.len, job.len);
    assert_eq!(renewed.start_time, 2000);
}

/// After a commit frees an id, the next fresh job reuses it, and it
/// is not handed out twice.
#[test]
fn id_recycling_round_trip() {
    let mut db = mem_db();
    let mut rng = rng();
    let ranges = vec![RangeRecord {
        id: 0,
        tweak_current: 0,
        tweak_end: 0,
        key_progress: 0,
        key_committed_progress: 0,
    }];
    db_init_ranges(&mut db, &ranges).unwrap();

    let a = db_create_job(&mut db, &mut rng, 5, 100).unwrap().unwrap();
    let b = db_create_job(&mut db, &mut rng, 5, 100).unwrap().unwrap();
    assert_eq!(a.id, 0);
    assert_eq!(b.id, 1);

    assert!(db_commit_job(&mut db, a.id).unwrap());
    // committing an absent id is the idempotent no-op outcome
    assert!(!db_commit_job(&mut db, a.id).unwrap());
    assert!(!db_commit_job(&mut db, 424242).unwrap());

    // the freed id comes back for the next job, exactly once
    let c = db_create_job(&mut db, &mut rng, 5, 110).unwrap().unwrap();
    assert_eq!(c.id, a.id);
    let d = db_create_job(&mut db, &mut rng, 5, 110).unwrap().unwrap();
    assert_ne!(d.id, a.id);
}

/// Once the only range's last tweak is fully confirmed, acquire
/// reports exhaustion repeatedly and no open tweak remains.
#[test]
fn exhaustion_is_terminal() {
    let mut db = mem_db();
    let mut rng = rng();
    // a range on its final tweak, three keys short of fully confirmed
    let ranges = vec![RangeRecord {
        id: 0,
        tweak_current: 5,
        tweak_end: 5,
        key_progress: u128::MAX - 3,
        key_committed_progress: u128::MAX - 3,
    }];
    db_init_ranges(&mut db, &ranges).unwrap();
    assert_eq!(limbs_low(db_get_progress(&db).unwrap()), 1);

    let job = db_create_job(&mut db, &mut rng, 10, 100).unwrap().unwrap();
    assert_eq!(job.start_key, u128::MAX - 2);
    assert_eq!(job.len, 3);

    // fully dispatched: no more work to hand out while the lease is open
    assert!(db_create_job(&mut db, &mut rng, 10, 100).unwrap().is_none());

    assert!(db_commit_job(&mut db, job.id).unwrap());
    assert_eq!(limbs_low(db_get_progress(&db).unwrap()), 0);

    // retired for good: acquire keeps reporting exhaustion
    assert!(db_create_job(&mut db, &mut rng, 10, 4000).unwrap().is_none());
    assert!(db_create_job(&mut db, &mut rng, 10, 8000).unwrap().is_none());
}

/// A tweak advance resets the cursors and keeps the range available;
/// the remaining-tweaks total drops by exactly one.
#[test]
fn tweak_advance() {
    let mut db = mem_db();
    let mut rng = rng();
    let ranges = vec![RangeRecord {
        id: 0,
        tweak_current: 1,
        tweak_end: 3,
        key_progress: u128::MAX - 2,
        key_committed_progress: u128::MAX - 2,
    }];
    db_init_ranges(&mut db, &ranges).unwrap();
    assert_eq!(limbs_low(db_get_progress(&db).unwrap()), 3);

    let job = db_create_job(&mut db, &mut rng, 2, 50).unwrap().unwrap();
    assert_eq!(job.len, 2);
    assert!(db_commit_job(&mut db, job.id).unwrap());
    assert_eq!(limbs_low(db_get_progress(&db).unwrap()), 2);

    // the range moved to the next tweak and starts over at key 1
    let job2 = db_create_job(&mut db, &mut rng, 4, 60).unwrap().unwrap();
    assert_eq!(job2.tweak_key, 2);
    assert_eq!(job2.start_key, 1);
}

/// The remaining-work reading never grows across acquires and
/// commits, and the standard partitioning accounts every range.
#[test]
fn progress_monotonic() {
    let mut db = mem_db();
    let mut rng = rng();
    let mut ranges = Vec::new();
    for id in 0..4u16 {
        ranges.push(RangeRecord {
            id,
            tweak_current: 0,
            tweak_end: 1,
            key_progress: 0,
            key_committed_progress: 0,
        });
    }
    db_init_ranges(&mut db, &ranges).unwrap();
    let mut last = limbs_low(db_get_progress(&db).unwrap());
    assert_eq!(last, 8);

    let mut leased = Vec::new();
    for step in 0..6u64 {
        let job = db_create_job(&mut db, &mut rng, 1000, step * 10).unwrap().unwrap();
        leased.push(job.id);
        let now = limbs_low(db_get_progress(&db).unwrap());
        assert!(now <= last);
        last = now;
    }
    for id in leased {
        db_commit_job(&mut db, id).unwrap();
        let now = limbs_low(db_get_progress(&db).unwrap());
        assert!(now <= last);
        last = now;
    }
}

/// The standard partitioning: fresh ranges made by `RangeRecord::new`
/// go through initialization and the random picker spreads jobs over
/// them.
#[test]
fn standard_partitioning() {
    let mut db = mem_db();
    let mut rng = rng();
    let mut ranges = Vec::new();
    for id in 0..8u16 {
        ranges.push(RangeRecord::new(id));
    }
    db_init_ranges(&mut db, &ranges).unwrap();
    let mut next_start = [1u128; 8];
    for _ in 0..5 {
        let job = db_create_job(&mut db, &mut rng, 1 << 20, 0).unwrap().unwrap();
        assert!(job.range_id < 8);
        assert_eq!(job.tweak_key, job.range_id as u128 * nyash::records::TWEAKS_PER_RANGE);
        assert_eq!(job.start_key, next_start[job.range_id as usize]);
        assert_eq!(job.len, 1 << 20);
        next_start[job.range_id as usize] += job.len as u128;
    }
}

/// An empty store reports no remaining work and no work to hand out.
#[test]
fn empty_store() {
    let mut db = mem_db();
    let mut rng = rng();
    assert_eq!(limbs_low(db_get_progress(&db).unwrap()), 0);
    assert!(db_create_job(&mut db, &mut rng, 5, 0).unwrap().is_none());
    assert!(!db_commit_job(&mut db, 0).unwrap());
}
