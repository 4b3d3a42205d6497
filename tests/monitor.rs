use loggest::{EntryMetadata, GcSweep, SpaceData, UsageMonitor};

#[test]
fn five_percent_free_reclaims_to_fifteen() {
    let s = SpaceData { available: 50, total: 1000 };
    assert_eq!(s.bytes_to_gc(), Some(100));
    let s = SpaceData { available: 5_000_000, total: 100_000_000 };
    assert_eq!(s.bytes_to_gc(), Some(10_000_000));
}

#[test]
fn twenty_percent_free_needs_nothing() {
    let s = SpaceData { available: 200, total: 1000 };
    assert_eq!(s.bytes_to_gc(), None);
}

#[test]
fn exactly_ten_percent_reclaims() {
    let s = SpaceData { available: 100, total: 1000 };
    assert_eq!(s.bytes_to_gc(), Some(50));
    let s = SpaceData { available: 101, total: 1000 };
    assert_eq!(s.bytes_to_gc(), None);
}

#[test]
fn huge_file_systems_do_not_overflow() {
    let s = SpaceData { available: 0, total: u64::MAX };
    assert_eq!(s.bytes_to_gc(), Some((u64::MAX as u128 * 15 / 100) as u64));
}

#[test]
fn space_from_blocks() {
    assert_eq!(SpaceData::from_blocks(10, 100, 4096), Some(SpaceData { available: 40960, total: 409600 }));
    assert_eq!(SpaceData::from_blocks(1, u64::MAX, 2), None);
}

fn meta(len: u64, modified: u64) -> Option<EntryMetadata> {
    Some(EntryMetadata { len, modified: Some(modified) })
}

#[test]
fn sweep_deletes_oldest_first_until_enough() {
    let entries = vec![meta(40, 300), meta(30, 100), None, meta(50, 200), meta(10, 100)];
    let mut sweep = GcSweep::new(entries, 75, 1000);
    let mut order = Vec::new();
    while let Some(i) = sweep.next() {
        order.push(i);
        sweep.record(i, true);
    }
    // 30 + 10 + 50 = 90 >= 75 after three deletions.
    assert_eq!(order, vec![1, 4, 3]);
}

#[test]
fn failed_deletions_do_not_count() {
    let entries = vec![meta(40, 1), meta(40, 2), meta(40, 3)];
    let mut sweep = GcSweep::new(entries, 50, 1000);
    let mut order = Vec::new();
    while let Some(i) = sweep.next() {
        order.push(i);
        sweep.record(i, i != 0);
    }
    assert_eq!(order, vec![0, 1, 2]);
}

#[test]
fn sweep_stops_when_archive_is_exhausted() {
    let entries = vec![meta(1, 5), None, Some(EntryMetadata { len: 2, modified: None })];
    let mut sweep = GcSweep::new(entries, 1_000, 10);
    let mut order = Vec::new();
    while let Some(i) = sweep.next() {
        order.push(i);
        sweep.record(i, true);
    }
    assert_eq!(order, vec![0, 2]);
}

#[test]
fn nothing_to_reclaim_deletes_nothing() {
    let mut sweep = GcSweep::new(vec![meta(1, 1)], 0, 10);
    assert_eq!(sweep.next(), None);
    sweep.record(0, false);
}

#[test]
fn monitor_plans_only_under_pressure() {
    let m = UsageMonitor::new("/logs");
    assert_eq!(m.archive_dir(), "/logs/archived");
    assert_eq!(m.period_secs(), 60);
    assert!(m.plan(SpaceData { available: 300, total: 1000 }, vec![meta(1, 1)], 0).is_none());
    let mut sweep = m.plan(SpaceData { available: 50, total: 1000 }, vec![meta(120, 1), meta(1, 0)], 0).unwrap();
    assert_eq!(sweep.next(), Some(1));
    sweep.record(1, true);
    assert_eq!(sweep.next(), Some(0));
    sweep.record(0, true);
    assert_eq!(sweep.next(), None);
}

#[test]
fn recording_an_ineligible_entry_changes_nothing() {
    let mut sweep = GcSweep::new(vec![None, meta(10, 1)], 5, 0);
    sweep.record(0, true);
    sweep.record(7, true);
    assert_eq!(sweep.next(), Some(1));
    sweep.record(1, true);
    sweep.record(1, true);
    assert_eq!(sweep.next(), None);
}
