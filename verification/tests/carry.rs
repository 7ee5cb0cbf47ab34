use netflow_collector::aggregator::{Counters, DayDelta, StatDelta, StatKey};
use netflow_collector::carry::{Absorbed, Carry, StatWriter};
use netflow_collector::db::{FlushBatch, HealthRow};
use netflow_collector::time::{Day, Timestamp};

fn counters(n: i64) -> Counters {
    Counters { intra_rx: n, intra_tx: 2 * n, ext_rx: 3 * n, ext_tx: 4 * n }
}

fn bucket(secs: i64, addr: u32, n: i64) -> StatDelta {
    StatDelta {
        key: StatKey { bucket: Timestamp { secs, nanos: 0 }, addr },
        counters: counters(n),
    }
}

fn day(number: i32, addr: u32, n: i64) -> DayDelta {
    DayDelta { day: Day { number }, addr, counters: counters(n) }
}

fn health(minute: i64) -> HealthRow {
    HealthRow { bucket: Some(Timestamp { secs: 60 * minute, nanos: 0 }), ..HealthRow::default() }
}

#[test]
fn a_failed_write_is_tried_again_with_what_came_since() {
    let mut writer = StatWriter::new();
    let first = FlushBatch {
        buckets: vec![bucket(0, 1, 10), bucket(300, 1, 20)],
        days: vec![day(5, 1, 30)],
        health: health(1),
    };
    let received = writer.receive(first).unwrap();
    assert_eq!(received.absorbed, Absorbed::Merged);
    let pending = received.pending.unwrap();
    assert_eq!((pending.rows, pending.health.len()), (2, 1));
    let change = writer.settle(pending, false);
    assert_eq!((change.stat_written, change.stat_failed), (0, 2));

    let second = FlushBatch {
        buckets: vec![bucket(300, 1, 5), bucket(300, 2, 7)],
        days: vec![day(5, 1, 5), day(5, 2, 7)],
        health: health(2),
    };
    let pending = writer.receive(second).unwrap().pending.unwrap();
    assert_eq!((pending.rows, pending.health.len()), (3, 2));
    assert_eq!(pending.batch.health, HealthRow::default());
    let merged = pending.batch.buckets.iter().find(|b| b.key.bucket.secs == 300 && b.key.addr == 1);
    assert_eq!(merged.unwrap().counters, counters(25));
    let merged = pending.batch.days.iter().find(|d| d.addr == 1);
    assert_eq!(merged.unwrap().counters, counters(35));
    let change = writer.settle(pending, true);
    assert_eq!((change.stat_written, change.stat_failed), (3, 0));
    assert!(writer.carry.is_empty());
}

#[test]
fn nothing_is_written_where_nothing_waits() {
    let mut writer = StatWriter::new();
    let nothing = FlushBatch { buckets: vec![], days: vec![], health: HealthRow::default() };
    assert!(writer.receive(nothing).unwrap().pending.is_none());
}

#[test]
fn a_window_with_health_alone_is_written() {
    let mut writer = StatWriter::new();
    let idle = FlushBatch { buckets: vec![], days: vec![], health: health(3) };
    let pending = writer.receive(idle).unwrap().pending.unwrap();
    assert_eq!((pending.rows, pending.health.len()), (0, 1));
}

#[test]
fn a_sum_beyond_a_counter_is_noticed() {
    let mut carry = Carry::default();
    let big = |addr: u32, n: i64| FlushBatch {
        buckets: vec![StatDelta {
            key: StatKey { bucket: Timestamp { secs: 0, nanos: 0 }, addr },
            counters: Counters { ext_tx: n, ..Counters::default() },
        }],
        days: vec![],
        health: HealthRow::default(),
    };
    assert_eq!(carry.absorb(big(1, i64::MAX)), Some(Absorbed::Merged));
    assert_eq!(carry.absorb(big(2, 1)), Some(Absorbed::Merged));
    assert_eq!(carry.rows(), 2);
    assert_eq!(carry.absorb(big(1, 1)), None);
}

#[test]
fn beyond_the_limit_batches_are_dropped() {
    let mut carry = Carry::default();
    let many: Vec<StatDelta> = (0..1_000_000).map(|n| bucket(0, n, 1)).collect();
    let big = FlushBatch { buckets: many, days: vec![], health: health(1) };
    assert_eq!(carry.absorb(big), Some(Absorbed::Merged));
    let more = || FlushBatch { buckets: vec![bucket(0, 0, 1)], days: vec![], health: health(2) };
    assert_eq!(carry.absorb(more()), Some(Absorbed::Dropped { first: true }));
    assert_eq!(carry.absorb(more()), Some(Absorbed::Dropped { first: false }));
    assert_eq!((carry.rows(), carry.health.len()), (1_000_000, 1));
    assert!(carry.full);
}

#[test]
fn writes_that_fail_in_between_lose_nothing() {
    let mut writer = StatWriter::new();
    let (mut delivered, mut health_rows) = (0i64, 0usize);
    let (mut written, mut failed) = (0u64, 0u64);
    for (n, ok) in [(1i64, false), (2, true), (3, false), (4, false), (5, true)] {
        let batch = FlushBatch {
            buckets: vec![bucket(0, 1, n), bucket(300 * n, 2, n)],
            days: vec![day(5, 1, n)],
            health: health(n),
        };
        let pending = writer.receive(batch).unwrap().pending.unwrap();
        if ok {
            let row = pending.batch.buckets.iter().find(|b| b.key.addr == 1).unwrap();
            delivered += row.counters.intra_rx;
            health_rows += pending.health.len();
        }
        let change = writer.settle(pending, ok);
        written += change.stat_written;
        failed += change.stat_failed;
    }
    assert_eq!((delivered, health_rows), (15, 5));
    assert_eq!((written, failed), (3 + 4, 2 + 2 + 3));
    assert!(writer.carry.is_empty());
}

#[test]
fn many_batches_come_out_as_one() {
    let mut carry = Carry::default();
    for n in 1..=4 {
        let batch = FlushBatch {
            buckets: vec![bucket(0, 1, n), bucket(0, n as u32 % 2 + 10, n)],
            days: vec![day(5, 1, n), day(5, 1, n)],
            health: HealthRow::default(),
        };
        assert_eq!(carry.absorb(batch), Some(Absorbed::Merged));
    }
    let out = carry.to_batch();
    assert_eq!((out.buckets.len(), out.days.len()), (3, 1));
    assert_eq!(out.days[0].counters, counters(20));
    let odd = out.buckets.iter().find(|b| b.key.addr == 11).unwrap();
    assert_eq!(odd.counters, counters(4));
    assert_eq!((out.health.bucket, carry.rows()), (None, 3));
}
