//! Tests of the range and job record logic.

use nyash::client_config::{AppConfig, DevConf};
use nyash::records::{JobRecord, RangeRecord, TWEAKS_PER_RANGE};

#[test]
fn fresh_ranges_tile_the_axis() {
    let first = RangeRecord::new(0);
    assert_eq!(first.tweak_current, 0);
    assert_eq!(first.tweak_end, TWEAKS_PER_RANGE - 1);
    assert_eq!(first.key_progress, 0);
    assert_eq!(first.key_committed_progress, 0);

    let last = RangeRecord::new(u16::MAX);
    assert_eq!(last.tweak_current, 65535u128 * TWEAKS_PER_RANGE);
    assert_eq!(last.tweak_end, u128::MAX);

    // adjacent ranges meet without a gap
    let second = RangeRecord::new(1);
    assert_eq!(first.tweak_end + 1, second.tweak_current);
}

#[test]
fn tweaks_left_counts_open_tweaks() {
    let fresh = RangeRecord::new(0);
    assert_eq!(fresh.tweaks_left(), TWEAKS_PER_RANGE);

    let retired = RangeRecord {
        id: 3,
        tweak_current: 9,
        tweak_end: 9,
        key_progress: u128::MAX,
        key_committed_progress: u128::MAX,
    };
    assert_eq!(retired.tweaks_left(), 0);

    let last_tweak_open = RangeRecord { key_committed_progress: 5, ..retired };
    assert_eq!(last_tweak_open.tweaks_left(), 1);
}

#[test]
fn create_job_carves_the_next_slice() {
    // a miniature range: 4 tweaks, nothing dispatched yet
    let mut range = RangeRecord {
        id: 0,
        tweak_current: 0,
        tweak_end: 3,
        key_progress: 0,
        key_committed_progress: 0,
    };
    let job = range.create_job(7, 3, 1000);
    assert_eq!(
        job,
        JobRecord { id: 7, range_id: 0, tweak_key: 0, start_key: 1, len: 3, start_time: 1000 }
    );
    assert_eq!(range.key_progress, 3);

    // the next job continues right after the previous one
    let job2 = range.create_job(8, 10, 1001);
    assert_eq!(job2.start_key, 4);
    assert_eq!(job2.len, 10);
    assert_eq!(range.key_progress, 13);

    // near the end of the key space the preferred length is capped
    let mut tail = RangeRecord { key_progress: u128::MAX - 2, ..range };
    let job3 = tail.create_job(9, 100, 1002);
    assert_eq!(job3.start_key, u128::MAX - 1);
    assert_eq!(job3.len, 2);
    assert_eq!(tail.key_progress, u128::MAX);
}

#[test]
fn commit_work_drives_the_lifecycle() {
    // normal confirmation: counter grows, range stays active
    let mut range = RangeRecord {
        id: 0,
        tweak_current: 0,
        tweak_end: 3,
        key_progress: 5,
        key_committed_progress: 0,
    };
    assert!(range.commit_work(3));
    assert_eq!(range.key_committed_progress, 3);

    // fully dispatched but not fully confirmed: waiting, not active
    let mut waiting = RangeRecord {
        key_progress: u128::MAX,
        key_committed_progress: 0,
        ..range
    };
    assert!(!waiting.commit_work(4));
    assert_eq!(waiting.key_committed_progress, 4);

    // full tweak confirmed with tweaks left: advance and reset
    let mut advancing = RangeRecord {
        tweak_current: 1,
        tweak_end: 3,
        key_progress: u128::MAX,
        key_committed_progress: u128::MAX - 6,
    ..range
    };
    assert!(advancing.commit_work(6));
    assert_eq!(advancing.tweak_current, 2);
    assert_eq!(advancing.key_progress, 0);
    assert_eq!(advancing.key_committed_progress, 0);

    // full tweak confirmed on the last tweak: retired
    let mut retiring = RangeRecord {
        tweak_current: 3,
        tweak_end: 3,
        key_progress: u128::MAX,
        key_committed_progress: u128::MAX - 2,
        ..range
    };
    assert!(!retiring.commit_work(2));
    assert_eq!(retiring.key_committed_progress, u128::MAX);
}

#[test]
fn job_record_round_trips_through_its_value() {
    let job = JobRecord {
        id: 11,
        range_id: 4,
        tweak_key: 1 << 100,
        start_key: 42,
        len: 1000,
        start_time: 123456,
    };
    let value = job.get_value();
    assert_eq!(value, (4, 1 << 100, 42, 1000, 123456));
    assert_eq!(JobRecord::from_data(11, &value), job);
}

#[test]
fn range_record_round_trips_through_its_value() {
    let range = RangeRecord {
        id: 9,
        tweak_current: 17,
        tweak_end: 99,
        key_progress: 7,
        key_committed_progress: 3,
    };
    let value = range.value();
    assert_eq!(value, (17, 99, 7, 3));
    assert_eq!(RangeRecord::from_value(9, &value), range);
}

fn dev(name: &str) -> DevConf {
    DevConf {
        dev_name: name.to_string(),
        platform_name: "pl".to_string(),
        id: 0,
        work_size: 64,
        batch_size: 4,
    }
}

#[test]
fn device_name_lookup() {
    let conf = AppConfig { devices: vec![dev("alpha"), dev("beta")], dev_fill: 100 };
    assert!(conf.device_name_exist("alpha"));
    assert!(conf.device_name_exist("beta"));
    assert!(!conf.device_name_exist("gamma"));
    let empty = AppConfig { devices: vec![], dev_fill: 100 };
    assert!(!empty.device_name_exist("alpha"));
}
