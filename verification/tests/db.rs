use chrono::{DateTime, Datelike, NaiveDate, Utc};
use netflow_collector::db::{
    can_rebuild, changed_cidr, describe_intra_cidr, describe_refusal, is_bounded, parse_cidr,
    parse_intra_cidr, taipei_day_bounds, CidrError, ConnectStep, FlowRow, HealthRow, Link, RawEvent,
    RawWriter, Reconnect, RollupOutcome, BATCH_SIZE,
};
use netflow_collector::time::{Day, Timestamp, MAX_DAY, MIN_DAY};

fn ip(a: u8, b: u8, c: u8, d: u8) -> u32 {
    u32::from_be_bytes([a, b, c, d])
}

fn rfc3339(at: Timestamp) -> String {
    DateTime::<Utc>::from_timestamp(at.secs, at.nanos).unwrap().to_rfc3339()
}

fn day(y: i32, m: u32, d: u32) -> Day {
    Day { number: NaiveDate::from_ymd_opt(y, m, d).unwrap().num_days_from_ce() }
}

#[test]
fn cidr_parses_with_and_without_a_prefix() {
    let (net, mask) = parse_cidr("10.10.0.0/16").unwrap();
    assert_eq!(mask, 0xFFFF_0000);
    assert_eq!(net, ip(10, 10, 0, 0));

    let (net, mask) = parse_cidr("203.0.113.1").unwrap();
    assert_eq!(mask, u32::MAX);
    assert_eq!(net, ip(203, 0, 113, 1));
}

#[test]
fn cidr_host_bits_are_masked_off() {
    let (net, _) = parse_cidr("10.10.5.7/16").unwrap();
    assert_eq!(net, ip(10, 10, 0, 0));
}

#[test]
fn day_bounds_span_taipei_midnight_to_midnight() {
    let (from, to) = taipei_day_bounds(day(2026, 9, 15));
    assert_eq!(rfc3339(from), "2026-09-14T16:00:00+00:00");
    assert_eq!(rfc3339(to), "2026-09-15T16:00:00+00:00");
}

#[test]
fn cidr_allows_white_space_around_the_address_only() {
    assert_eq!(parse_cidr(" 10.0.0.1 /8"), Ok((ip(10, 0, 0, 0), 0xFF00_0000)));
    assert_eq!(parse_cidr("10.0.0.1/ 8"), Err(CidrError::PrefixLength));
    assert_eq!(parse_cidr("10.0.0.1/0"), Ok((0, 0)));
}

#[test]
fn cidr_errors_are_told_apart() {
    assert_eq!(parse_cidr("x/8/8"), Err(CidrError::PrefixLength));
    assert_eq!(parse_cidr("x/33"), Err(CidrError::PrefixTooLong(33)));
    assert_eq!(parse_cidr("x/32"), Err(CidrError::Address));
    assert_eq!(CidrError::PrefixLength.message(), "invalid prefix length");
    assert_eq!(CidrError::PrefixTooLong(33).message(), "prefix length 33 > 32");
    assert_eq!(CidrError::Address.message(), "invalid IPv4 address");
    assert_eq!(
        describe_intra_cidr("x/32"),
        "[netflow].intra_cidr is not a valid IPv4 CIDR: 'x/32'"
    );
}

#[test]
fn the_intranet_is_what_shares_its_prefix() {
    let intra = parse_intra_cidr("10.10.0.0/16").unwrap();
    assert!(intra.contains(ip(10, 10, 255, 255)) && intra.contains(ip(10, 10, 0, 0)));
    assert!(!intra.contains(ip(10, 11, 0, 0)) && !intra.contains(ip(10, 9, 255, 255)));
    assert!(parse_intra_cidr("nonsense").is_err());
}

#[test]
fn a_boundary_that_changed_is_told() {
    assert_eq!(changed_cidr(None, "10.0.0.0/8"), None);
    assert_eq!(changed_cidr(Some("10.0.0.0/8".to_string()), "10.0.0.0/8"), None);
    assert_eq!(
        changed_cidr(Some("10.0.0.0/9".to_string()), "10.0.0.0/8"),
        Some("10.0.0.0/9".to_string())
    );
}

#[test]
fn waits_double_up_to_half_a_minute() {
    let mut retry = Reconnect::new();
    assert_eq!(retry.next(Link::Absent), ConnectStep::Dial { lost: false });
    assert!(!retry.succeeded());
    let waits: Vec<u64> = (0..7).map(|_| retry.failed()).collect();
    assert_eq!(waits, vec![1, 2, 4, 8, 16, 30, 30]);
    assert_eq!(retry.attempts, 7);
    assert!(retry.succeeded());
    assert_eq!(retry.next(Link::Open), ConnectStep::Use);
}

#[test]
fn a_lost_connection_is_reported_once_it_is_back() {
    let mut retry = Reconnect::new();
    assert_eq!(retry.next(Link::Closed), ConnectStep::Dial { lost: true });
    assert!(retry.succeeded());
    assert_eq!(retry.attempts, 0);
}

fn row(n: i32) -> FlowRow {
    FlowRow {
        ts: Timestamp { secs: n as i64, nanos: 0 },
        src_addr: 1,
        dst_addr: 2,
        src_port: n,
        dst_port: 4,
        protocol: 6,
        packets: 7,
        bytes: 8,
        tcp_flags: 9,
        input: 10,
        output: 11,
        tos: 12,
        sampling_interval: 13,
    }
}

#[test]
fn raw_rows_are_written_when_enough_have_come() {
    let mut writer = RawWriter::new();
    for n in 1..BATCH_SIZE {
        let action = writer.next(RawEvent::Row(row(n as i32)));
        assert!(!action.write && !action.stop);
    }
    assert!(writer.next(RawEvent::Row(row(1000))).write);
    assert_eq!(writer.buffer.len(), BATCH_SIZE);
    let change = writer.settle(true);
    assert_eq!((change.db_written, change.db_failed), (1000, 0));
    assert!(writer.buffer.is_empty());
}

#[test]
fn raw_rows_are_written_when_the_time_is_up_or_no_more_come() {
    let mut writer = RawWriter::new();
    assert!(!writer.next(RawEvent::Tick).write);
    let action = writer.next(RawEvent::Closed);
    assert!(!action.write && action.stop);
    writer.next(RawEvent::Row(row(1)));
    assert!(writer.next(RawEvent::Tick).write);
    let action = writer.next(RawEvent::Closed);
    assert!(action.write && action.stop);
    let change = writer.settle(false);
    assert_eq!((change.db_written, change.db_failed), (0, 1));
}

#[test]
fn drift_is_what_the_rebuild_changed() {
    let outcome = RollupOutcome { rows: 3, bytes_before: 100, bytes_after: 70 };
    assert!(outcome.has_drift());
    assert_eq!(outcome.drift(), -30);
    let outcome = RollupOutcome { rows: 3, bytes_before: i64::MIN, bytes_after: 1 };
    assert!(!outcome.has_drift());
}

#[test]
fn a_range_without_raw_rows_is_not_rebuilt() {
    assert!(can_rebuild(1) && !can_rebuild(0));
    assert_eq!(
        describe_refusal(
            Timestamp { secs: 0, nanos: 0 },
            Timestamp { secs: 300, nanos: 0 },
            42
        ),
        "flow_raw holds no rows for 1970-01-01 00:00:00 UTC .. 1970-01-01 00:05:00 UTC \
         (past the retention window, or the wrong range); refusing to rebuild, because doing so \
         would delete the 42 existing statistics rows and put nothing back"
    );
}

#[test]
fn days_at_the_ends_of_the_calendar_have_no_bounds() {
    assert!(is_bounded(day(2026, 9, 15)));
    assert!(!is_bounded(Day { number: MIN_DAY }));
    assert!(is_bounded(Day { number: MIN_DAY + 1 }));
    assert!(is_bounded(Day { number: MAX_DAY }));
    assert!(!is_bounded(Day { number: MAX_DAY + 1 }));
}

#[test]
fn a_blank_health_row_is_for_no_window() {
    let blank = HealthRow::default();
    assert_eq!((blank.bucket, blank.packets_received), (None, 0));
    assert_eq!(blank.clock_skew_min_ms, None);
}
