use std::collections::HashSet;

use netflow_collector::aggregator::{Counters, DayDelta, StatDelta, StatKey};
use netflow_collector::db::{FlowRow, FlushBatch, HealthRow};
use netflow_collector::sql::{
    count_bucket_rows, count_raw_rows, push_placeholders, read_intra_cidr, recompute_5m,
    recompute_day, record_intra_cidr, write_flush_batch, write_raw_rows, RangeRebuild, RebuildStep,
    SqlValue, UPSERT_CHUNK_ROWS,
};
use netflow_collector::time::{Day, Timestamp, EPOCH_DAY};

fn at(secs: i64) -> Timestamp {
    Timestamp { secs, nanos: 0 }
}

fn row(n: i32) -> FlowRow {
    FlowRow {
        ts: at(n as i64),
        src_addr: 1,
        dst_addr: 2,
        src_port: 3,
        dst_port: 4,
        protocol: 5,
        packets: 6,
        bytes: 7,
        tcp_flags: 8,
        input: 9,
        output: 10,
        tos: 11,
        sampling_interval: n,
    }
}

#[test]
fn placeholders_go_on_from_a_number() {
    let mut query = "VALUES ".to_string();
    push_placeholders(&mut query, 9, 3);
    assert_eq!(query, "VALUES ($10,$11,$12)");
    push_placeholders(&mut query, 0, 0);
    assert_eq!(query, "VALUES ($10,$11,$12)()");
}

#[test]
fn raw_rows_go_into_one_statement() {
    assert!(write_raw_rows(&Vec::new()).is_none());
    let statement = write_raw_rows(&vec![row(21), row(22)]).unwrap();
    assert_eq!(
        statement.sql,
        "INSERT INTO flow_raw (ts,srcaddr,dstaddr,srcport,dstport,prot,d_pkts,d_octets,\
         tcp_flags,input,output,tos,sampling_interval) VALUES \
         ($1,$2,$3,$4,$5,$6,$7,$8,$9,$10,$11,$12,$13),\
         ($14,$15,$16,$17,$18,$19,$20,$21,$22,$23,$24,$25,$26)"
    );
    assert_eq!(statement.params.len(), 26);
    assert!(matches!(statement.params[13], SqlValue::Instant(ts) if ts == at(22)));
    assert!(matches!(statement.params[5], SqlValue::Int2(5)));
    assert!(matches!(statement.params[25], SqlValue::Int4(22)));
    assert_eq!(statement.failure, "flow_raw INSERT failed");
}

fn bucket(n: u32) -> StatDelta {
    StatDelta {
        key: StatKey { bucket: at(300), addr: n },
        counters: Counters { intra_rx: 1, intra_tx: 2, ext_rx: 3, ext_tx: 4 },
    }
}

#[test]
fn statistics_are_written_in_chunks() {
    let batch = FlushBatch {
        buckets: (0..2 * UPSERT_CHUNK_ROWS as u32 + 1).map(bucket).collect(),
        days: vec![DayDelta {
            day: Day { number: EPOCH_DAY },
            addr: 9,
            counters: Counters { intra_rx: 5, intra_tx: 6, ext_rx: 7, ext_tx: 8 },
        }],
        health: HealthRow::default(),
    };
    let health = vec![
        HealthRow::default(),
        HealthRow { bucket: Some(at(60)), seq_gap: 4, ..HealthRow::default() },
    ];
    let all = write_flush_batch(&batch, &health);
    assert_eq!(all.len(), 5);
    assert_eq!(all[0].params.len(), 12_000);
    assert_eq!(all[1].params.len(), 12_000);
    assert_eq!(all[2].params.len(), 6);
    assert!(matches!(all[2].params[1], SqlValue::Address(4000)));
    assert_eq!(
        all[2].sql,
        "INSERT INTO flow_stat_5m \
         (bucket,addr,intra_rx_bytes,intra_tx_bytes,ext_rx_bytes,ext_tx_bytes) VALUES \
         ($1,$2,$3,$4,$5,$6) ON CONFLICT (bucket,addr) DO UPDATE SET \
         intra_rx_bytes = flow_stat_5m.intra_rx_bytes + EXCLUDED.intra_rx_bytes,\
         intra_tx_bytes = flow_stat_5m.intra_tx_bytes + EXCLUDED.intra_tx_bytes,\
         ext_rx_bytes   = flow_stat_5m.ext_rx_bytes   + EXCLUDED.ext_rx_bytes,\
         ext_tx_bytes   = flow_stat_5m.ext_tx_bytes   + EXCLUDED.ext_tx_bytes"
    );
    assert!(all[3].sql.starts_with("INSERT INTO flow_stat_1d (day,addr,"));
    assert!(matches!(all[3].params[0], SqlValue::Date(day) if day.number == EPOCH_DAY));
    assert!(matches!(all[3].params[5], SqlValue::Int8(8)));
    assert!(all[4].sql.starts_with("INSERT INTO collector_health_1m (bucket,packets_received,"));
    assert_eq!(all[4].params.len(), 12);
    assert!(matches!(all[4].params[4], SqlValue::Int8(4)));
    assert!(matches!(all[4].params[8], SqlValue::OptInt8(None)));
}

#[test]
fn full_chunks_leave_no_empty_one() {
    let batch = FlushBatch {
        buckets: (0..UPSERT_CHUNK_ROWS as u32).map(bucket).collect(),
        days: Vec::new(),
        health: HealthRow::default(),
    };
    assert_eq!(write_flush_batch(&batch, &Vec::new()).len(), 1);
}

fn set(addresses: &[u32]) -> HashSet<u32> {
    addresses.iter().copied().collect()
}

fn sorted(value: &SqlValue) -> Vec<u32> {
    match value {
        SqlValue::Addresses(list) => {
            let mut out = list.clone();
            out.sort();
            out
        }
        other => panic!("{:?}", other),
    }
}

#[test]
fn rebuilding_clears_only_what_it_fills() {
    let all = recompute_5m(at(0), at(300), "10.0.0.0/8", &set(&[7, 8, 9]), &set(&[9, 10]));
    assert_eq!(all.len(), 8);
    assert_eq!(
        all[0].sql,
        "CREATE TEMP TABLE filter_senders (addr inet PRIMARY KEY) ON COMMIT DROP"
    );
    assert_eq!(
        all[1].sql,
        "CREATE TEMP TABLE filter_receivers (addr inet PRIMARY KEY) ON COMMIT DROP"
    );
    assert_eq!(all[2].sql, "INSERT INTO filter_senders (addr) SELECT unnest($1::inet[])");
    assert_eq!(sorted(&all[2].params[0]), vec![7, 8, 9]);
    assert_eq!(all[3].sql, "INSERT INTO filter_receivers (addr) SELECT unnest($1::inet[])");
    assert_eq!(sorted(&all[3].params[0]), vec![9, 10]);
    assert_eq!(all[4].sql, "ANALYZE filter_senders");
    assert_eq!(all[5].sql, "ANALYZE filter_receivers");
    assert_eq!(
        all[6].sql,
        "DELETE FROM flow_stat_5m WHERE bucket >= $1 AND bucket < $2 AND addr IN \
         (SELECT addr FROM filter_senders UNION SELECT addr FROM filter_receivers)"
    );
    assert_eq!(all[7].sql.matches("make_interval(secs => 300)").count(), 2);
    assert_eq!(all[7].params.len(), 3);
    assert!(matches!(&all[7].params[2], SqlValue::Text(cidr) if cidr == "10.0.0.0/8"));
}

#[test]
fn each_half_of_a_rebuild_joins_its_own_side() {
    let all = recompute_5m(at(0), at(300), "10.0.0.0/8", &set(&[7]), &set(&[]));
    let (sent, received) = all[7].sql.split_once("UNION ALL").unwrap();
    assert!(sent.contains("JOIN filter_senders m ON m.addr = r.srcaddr"));
    assert!(received.contains("JOIN filter_receivers m ON m.addr = r.dstaddr"));
    assert!(!sent.contains("filter_receivers") && !received.contains("filter_senders"));
}

#[test]
fn coverage_is_asked_for_the_range() {
    let raw = count_raw_rows(at(0), at(300));
    assert_eq!(raw.sql, "SELECT count(*)::bigint FROM flow_raw WHERE ts >= $1 AND ts < $2");
    assert!(matches!(raw.params[1], SqlValue::Instant(to) if to == at(300)));
    let existing = count_bucket_rows(at(0), at(300));
    assert_eq!(
        existing.sql,
        "SELECT count(*)::bigint FROM flow_stat_5m WHERE bucket >= $1 AND bucket < $2"
    );
    assert!(matches!(existing.params[0], SqlValue::Instant(from) if from == at(0)));
}

#[test]
fn a_day_is_rebuilt_from_the_buckets_of_that_day() {
    let all = recompute_day(Day { number: EPOCH_DAY });
    assert_eq!(all.before.sql, all.after.sql);
    assert_eq!(all.clear.sql, "DELETE FROM flow_stat_1d WHERE day = $1");
    assert!(matches!(all.fill.params[1], SqlValue::Instant(from) if from == at(-28_800)));
    assert!(matches!(all.fill.params[2], SqlValue::Instant(to) if to == at(57_600)));
    assert_eq!(all.after.failure, "failed to read the rebuilt day total");
}

#[test]
fn the_boundary_in_use_is_read_and_noted() {
    assert!(read_intra_cidr().params.is_empty());
    assert_eq!(
        read_intra_cidr().failure,
        "failed to read app_config — has the schema been applied? run --migrate first"
    );
    let noted = record_intra_cidr("10.0.0.0/8");
    assert!(noted.sql.ends_with("ON CONFLICT (key) DO UPDATE SET value = EXCLUDED.value"));
    assert!(matches!(&noted.params[0], SqlValue::Text(cidr) if cidr == "10.0.0.0/8"));
}

#[test]
fn nothing_is_cleared_without_raw_rows() {
    let (senders, receivers) = (set(&[7]), set(&[8]));
    let mut rebuild = RangeRebuild::new(at(0), at(300), "10.0.0.0/8", &senders, &receivers);
    assert!(rebuild.first().sql.contains("FROM flow_raw"));
    match rebuild.answer(0) {
        RebuildStep::Ask(question) => assert!(question.sql.contains("FROM flow_stat_5m")),
        _ => panic!("asked for nothing"),
    }
    match rebuild.answer(42) {
        RebuildStep::Refuse(message) => assert!(message.contains("delete the 42 existing")),
        _ => panic!("not refused"),
    }
    let mut rebuild = RangeRebuild::new(at(0), at(300), "10.0.0.0/8", &senders, &receivers);
    match rebuild.answer(1) {
        RebuildStep::Run(steps) => assert_eq!(steps.len(), 8),
        _ => panic!("not run"),
    }
}
