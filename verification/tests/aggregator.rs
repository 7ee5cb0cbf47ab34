use chrono::{DateTime, Datelike, NaiveDate, Utc};
use netflow_collector::aggregator::{
    bucket_of, is_dated, taipei_day, Aggregator, Counters, BUCKET_SECONDS,
};
use netflow_collector::time::{Day, Timestamp, MAX_DAY, MAX_SECONDS, MIN_DAY, MIN_SECONDS};

fn at(s: &str) -> Timestamp {
    let found = DateTime::parse_from_rfc3339(s).unwrap().with_timezone(&Utc);
    Timestamp { secs: found.timestamp(), nanos: found.timestamp_subsec_nanos() }
}

fn date(day: Day) -> String {
    NaiveDate::from_num_days_from_ce_opt(day.number).unwrap().to_string()
}

#[test]
fn buckets_floor_to_five_minutes() {
    assert_eq!(bucket_of(at("2026-09-15T10:04:59Z")), at("2026-09-15T10:00:00Z"));
    assert_eq!(bucket_of(at("2026-09-15T10:05:00Z")), at("2026-09-15T10:05:00Z"));
}

#[test]
fn day_boundary_lands_on_taipei_midnight() {
    assert_eq!(date(taipei_day(at("2026-09-15T15:55:00Z"))), "2026-09-15");
    assert_eq!(date(taipei_day(at("2026-09-15T16:00:00Z"))), "2026-09-16");
}

#[test]
fn drain_folds_buckets_of_one_day_into_a_single_row() {
    let mut agg = Aggregator::new();
    agg.add_tx(at("2026-09-15T10:00:00Z"), 7, false, 100);
    agg.add_tx(at("2026-09-15T10:05:00Z"), 7, false, 250);
    agg.add_rx(at("2026-09-15T10:05:00Z"), 7, true, 30);

    let (buckets, days) = agg.drain();
    assert_eq!(buckets.len(), 2);
    assert_eq!(days.len(), 1, "both buckets are the same Taipei day");
    assert_eq!(days[0].counters.ext_tx, 350);
    assert_eq!(days[0].counters.intra_rx, 30);

    let (buckets, days) = agg.drain();
    assert!(buckets.is_empty() && days.is_empty(), "drain leaves nothing behind");
}

#[test]
fn both_ends_monitored_produces_two_rows() {
    let mut agg = Aggregator::new();
    let b = at("2026-09-15T10:00:00Z");
    agg.add_tx(b, 1, true, 500);
    agg.add_rx(b, 2, true, 500);
    let (buckets, _) = agg.drain();
    assert_eq!(buckets.len(), 2);
}

#[test]
fn buckets_floor_downwards_before_1970() {
    let b = bucket_of(Timestamp { secs: -1, nanos: 999_999_999 });
    assert_eq!(b, Timestamp { secs: -BUCKET_SECONDS, nanos: 0 });
    assert_eq!(bucket_of(b), b);
}

#[test]
fn a_bucket_belongs_to_the_day_of_its_instants() {
    let last = at("2026-09-15T15:59:59Z");
    assert_eq!(taipei_day(last), taipei_day(bucket_of(last)));
    let first = at("2026-09-15T16:00:00Z");
    assert_eq!(taipei_day(first), taipei_day(bucket_of(first)));
    assert!(bucket_of(last).is_before(&bucket_of(first)));
}

#[test]
fn buckets_on_both_sides_of_midnight_make_two_day_rows() {
    let mut agg = Aggregator::new();
    agg.add_tx(at("2026-09-15T15:55:00Z"), 7, false, 100);
    agg.add_tx(at("2026-09-15T16:00:00Z"), 7, false, 200);
    let (buckets, days) = agg.drain();
    assert_eq!(buckets.len(), 2);
    assert_eq!(days.len(), 2);
    let total: i64 = days.iter().map(|d| d.counters.ext_tx).sum();
    assert_eq!(total, 300);
}

#[test]
fn traffic_that_cancels_out_makes_no_row() {
    let mut agg = Aggregator::new();
    let b = at("2026-09-15T10:00:00Z");
    agg.add_tx(b, 1, true, 500);
    agg.add_tx(b, 1, true, -500);
    let (buckets, days) = agg.drain();
    assert!(buckets.is_empty() && days.is_empty());
}

#[test]
fn additions_beyond_a_counter_are_noticed() {
    let mut agg = Aggregator::new();
    let b = at("2026-09-15T10:00:00Z");
    agg.add_tx(b, 1, true, i64::MAX);
    assert!(!agg.can_add_tx(b, 1, true, 1));
    assert!(agg.can_add_tx(b, 1, false, 1));
    assert!(agg.can_add_rx(b, 1, true, 1));
    assert!(agg.can_drain());
    agg.add_tx(at("2026-09-15T10:05:00Z"), 1, true, 1);
    assert!(!agg.can_drain());
}

#[test]
fn counters_add_up_and_know_their_zero() {
    let mut c = Counters::default();
    assert!(c.is_zero());
    c.add(&Counters { intra_rx: 1, intra_tx: 2, ext_rx: 3, ext_tx: 4 });
    c.add(&Counters { intra_rx: 10, intra_tx: 20, ext_rx: 30, ext_tx: 40 });
    assert_eq!(c, Counters { intra_rx: 11, intra_tx: 22, ext_rx: 33, ext_tx: 44 });
    assert!(!c.is_zero());
    assert!(!c.can_add(&Counters { intra_rx: i64::MAX, ..Counters::default() }));
}

#[test]
fn only_instants_with_a_day_in_taipei_are_dated() {
    assert!(is_dated(at("2026-09-15T10:00:00Z")));
    assert!(!is_dated(Timestamp { secs: MAX_SECONDS, nanos: 0 }));
    assert!(!is_dated(Timestamp { secs: 0, nanos: 1_000_000_000 }));
    assert!(is_dated(Timestamp { secs: 59, nanos: 1_000_000_000 }));
}

#[test]
fn the_calendar_ends_where_chrono_ends() {
    assert_eq!(DateTime::<Utc>::MIN_UTC.timestamp(), MIN_SECONDS);
    assert_eq!(DateTime::<Utc>::MAX_UTC.timestamp(), MAX_SECONDS);
    assert_eq!(NaiveDate::MIN.num_days_from_ce(), MIN_DAY);
    assert_eq!(NaiveDate::MAX.num_days_from_ce(), MAX_DAY);
    let first = Timestamp { secs: MIN_SECONDS, nanos: 0 };
    assert!(is_dated(first));
    assert!(!is_dated(Timestamp { secs: MIN_SECONDS - 1, nanos: 0 }));
    assert_eq!(bucket_of(first), first);
}

#[test]
fn a_default_aggregator_is_empty() {
    let (buckets, days) = Aggregator::default().drain();
    assert!(buckets.is_empty() && days.is_empty());
}
