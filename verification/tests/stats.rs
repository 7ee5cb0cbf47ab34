use netflow_collector::stats::{
    floor_to_minute, HealthAccumulator, SequenceTracker, Snapshot, Stats, SANE_GAP_LIMIT,
};
use netflow_collector::time::Timestamp;

#[test]
fn contiguous_sequences_report_no_loss() {
    let mut t = SequenceTracker::default();
    assert_eq!(t.observe(1000, 30), 0);
    assert_eq!(t.observe(1030, 30), 0);
    assert_eq!(t.observe(1060, 30), 0);
}

#[test]
fn a_jump_counts_the_missing_records() {
    let mut t = SequenceTracker::default();
    t.observe(1000, 30);
    assert_eq!(t.observe(1080, 30), 50, "1030..1080 never arrived");
}

#[test]
fn an_exporter_restart_is_not_counted_as_loss() {
    let mut t = SequenceTracker::default();
    t.observe(4_000_000_000, 30);
    assert_eq!(t.observe(0, 30), 0);
}

#[test]
fn the_u32_counter_rollover_is_not_counted_as_loss() {
    let mut t = SequenceTracker::default();
    t.observe(u32::MAX - 70, 100);
    assert_eq!(t.observe(29, 30), 0);
    assert_eq!(t.observe(59, 30), 0);
}

#[test]
fn a_jump_across_the_rollover_counts_the_missing_records() {
    let mut t = SequenceTracker::default();
    t.observe(u32::MAX - 29, 30);
    assert_eq!(t.observe(12, 30), 12);
}

#[test]
fn jumps_count_up_to_the_limit() {
    let mut t = SequenceTracker::default();
    t.observe(0, 0);
    assert_eq!(t.observe(SANE_GAP_LIMIT - 1, 1), SANE_GAP_LIMIT as u64 - 1);
    assert_eq!(t.observe(2 * SANE_GAP_LIMIT, 1), 0);
}

#[test]
fn a_late_packet_is_not_counted_as_loss() {
    let mut t = SequenceTracker::default();
    t.observe(1000, 30);
    assert_eq!(t.observe(970, 30), 0);
}

#[test]
fn snapshots_are_compared_total_by_total() {
    let mut stats = Stats::new();
    let before = Snapshot::take(&stats);
    assert!(!before.since(&before).shows_trouble());
    stats.received = 7;
    stats.parsed = 70;
    stats.seq_gap = 3;
    let now = Snapshot::take(&stats);
    assert!(now.follows(&before) && !before.follows(&now));
    let change = now.since(&before);
    assert_eq!((change.received, change.parsed, change.seq_gap, change.failed), (7, 70, 3, 0));
    assert!(change.shows_trouble());
}

#[test]
fn a_window_is_taken_once() {
    let mut stats = Stats::new();
    stats.db_written = 5;
    let mut health = HealthAccumulator::new(&stats);
    health.packet(false);
    health.packet(true);
    health.flows(60, 12);
    health.lost(4);
    health.clock_skew(100, false);
    health.clock_skew(-70_000, true);
    health.clock_skew(20, false);
    stats.db_written = 17;
    stats.db_failed = 2;
    let row = health.take(&stats, Timestamp { secs: 125, nanos: 9 });
    assert_eq!(row.bucket, Some(Timestamp { secs: 120, nanos: 0 }));
    assert_eq!((row.packets_received, row.parse_failures), (2, 1));
    assert_eq!((row.flows_parsed, row.flows_matched, row.seq_gap), (60, 12, 4));
    assert_eq!((row.rows_written, row.db_failures), (12, 2));
    assert_eq!(row.clock_skew_min_ms, Some(-70_000));
    assert_eq!(row.clock_skew_max_ms, Some(100));
    assert_eq!(row.clock_skew_last_ms, Some(20));
    assert_eq!(row.clock_skew_rejects, 1);

    let next = health.take(&stats, Timestamp { secs: 185, nanos: 0 });
    assert_eq!((next.packets_received, next.rows_written, next.db_failures), (0, 0, 0));
    assert_eq!(next.clock_skew_last_ms, None);
}

#[test]
fn totals_that_went_down_count_as_no_growth() {
    let mut stats = Stats::new();
    stats.db_written = 5;
    let mut health = HealthAccumulator::new(&stats);
    stats.db_written = 3;
    let row = health.take(&stats, Timestamp { secs: 0, nanos: 0 });
    assert_eq!(row.rows_written, 0);
}

#[test]
fn minutes_floor_downwards() {
    assert_eq!(floor_to_minute(Timestamp { secs: 59, nanos: 1 }), Timestamp { secs: 0, nanos: 0 });
    assert_eq!(floor_to_minute(Timestamp { secs: -1, nanos: 0 }), Timestamp { secs: -60, nanos: 0 });
}
