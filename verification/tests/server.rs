use netflow_collector::aggregator::{bucket_of, Counters};
use netflow_collector::config::{Config, FilterEntry, NetflowConfig, StatsConfig};
use netflow_collector::db::{parse_intra_cidr, FlushBatch};
use netflow_collector::filter::{build, FilterConfig};
use netflow_collector::parser::{FlowDecoder, FlowRecord, ParseResult};
use netflow_collector::server::{
    dropped, flush_period, row_dropped, Collector, DbSettings, RunOptions,
};
use netflow_collector::stats::Stats;
use netflow_collector::time::Timestamp;

const HOST: u32 = 0x0a0a_0132;
const PEER: u32 = 0x0a0a_0707;
const OUTSIDE: u32 = 0x0808_0808;

fn received_at() -> Timestamp {
    Timestamp { secs: 1_700_000_010, nanos: 0 }
}

fn filter(cidrs: &[&str]) -> FilterConfig {
    build(&Config {
        filters: cidrs
            .iter()
            .map(|c| FilterEntry { cidr: c.to_string(), direction: None })
            .collect(),
        highlighted_ports: None,
        database: None,
        live: None,
        netflow: None,
        stats: None,
    })
    .unwrap()
}

fn db() -> DbSettings {
    DbSettings {
        intra: parse_intra_cidr("10.10.0.0/16").unwrap(),
        sampling_interval: 2,
        clock_skew_threshold_ms: 60_000,
        flush_seconds: 60,
    }
}

fn collector(db: Option<DbSettings>) -> Collector {
    let opts = RunOptions { direct_print: true, color: false };
    Collector::new(opts, true, db, &Stats::new())
}

fn flow(src_addr: u32, dst_addr: u32, secs: i64) -> FlowRecord {
    FlowRecord {
        ts: Timestamp { secs, nanos: 0 },
        src_addr,
        dst_addr,
        src_port: 40_000,
        dst_port: 443,
        d_pkts: 3,
        d_octets: 500,
        protocol_number: 6,
        tcp_flags: 0x1b,
        input: 1,
        output: 2,
        tos: 0x20,
    }
}

fn parsed(flows: Vec<FlowRecord>) -> ParseResult {
    ParseResult { flows, has_error: false, sequences: Vec::new() }
}

#[test]
fn a_flow_is_counted_from_the_side_that_matches() {
    let mut c = collector(Some(db()));
    let said = parsed(vec![flow(HOST, OUTSIDE, 1_700_000_000), flow(PEER, HOST, 1_700_000_000)]);
    let report = c.collect(&said, &filter(&["10.10.1.50"]), received_at()).unwrap();
    assert_eq!((report.change.received, report.change.parsed, report.change.matched), (1, 2, 2));
    let batch = c.flush(&Stats::new(), received_at()).unwrap();
    assert_eq!(batch.buckets.len(), 1);
    assert_eq!(batch.buckets[0].key.addr, HOST);
    assert_eq!(
        batch.buckets[0].counters,
        Counters { intra_rx: 1000, intra_tx: 0, ext_rx: 0, ext_tx: 1000 }
    );
    assert_eq!(batch.days[0].counters, batch.buckets[0].counters);
}

#[test]
fn a_flow_between_two_hosts_that_match_is_counted_for_both() {
    let mut c = collector(Some(db()));
    let said = parsed(vec![flow(HOST, PEER, 1_700_000_000)]);
    c.collect(&said, &filter(&["10.10.0.0/16"]), received_at()).unwrap();
    let batch = c.flush(&Stats::new(), received_at()).unwrap();
    assert_eq!(batch.buckets.len(), 2);
    for row in &batch.buckets {
        if row.key.addr == HOST {
            assert_eq!(row.counters, Counters { intra_tx: 1000, ..Counters::default() });
        } else {
            assert_eq!(row.key.addr, PEER);
            assert_eq!(row.counters, Counters { intra_rx: 1000, ..Counters::default() });
        }
    }
}

#[test]
fn a_flow_that_does_not_match_leaves_no_trace() {
    let mut c = collector(Some(db()));
    let said = parsed(vec![flow(OUTSIDE, PEER, 1_700_000_000)]);
    let report = c.collect(&said, &filter(&["10.10.1.50"]), received_at()).unwrap();
    assert!(report.lines.is_empty() && report.live.is_empty() && report.rows.is_empty());
    assert_eq!((report.change.parsed, report.change.matched), (1, 0));
    let batch = c.flush(&Stats::new(), received_at()).unwrap();
    assert!(batch.buckets.is_empty() && batch.days.is_empty());
    assert_eq!((batch.health.flows_parsed, batch.health.flows_matched), (1, 0));
}

#[test]
fn flows_are_stored_printed_and_shown() {
    let mut c = collector(Some(db()));
    let said = parsed(vec![flow(HOST, OUTSIDE, 1_700_000_000)]);
    let report = c.collect(&said, &filter(&["10.10.1.50"]), received_at()).unwrap();
    assert_eq!(
        report.lines,
        vec!["10.10.1.50        40000     8.8.8.8           443       3         500".to_string()]
    );
    assert_eq!(report.live.len(), 1);
    assert!(report.live[0].src_matched && !report.live[0].dst_matched);
    let row = report.rows[0];
    assert_eq!(row.ts, Timestamp { secs: 1_700_000_000, nanos: 0 });
    assert_eq!((row.src_addr, row.dst_addr, row.src_port, row.dst_port), (HOST, OUTSIDE, 40_000, 443));
    assert_eq!((row.packets, row.bytes, row.sampling_interval), (3, 500, 2));
    assert_eq!((row.protocol, row.tcp_flags, row.input, row.output, row.tos), (6, 0x1b, 1, 2, 0x20));
}

#[test]
fn a_clock_that_is_far_off_is_not_trusted() {
    let mut c = collector(Some(db()));
    let said = parsed(vec![
        flow(HOST, OUTSIDE, 1_700_000_010 - 60),
        flow(HOST, OUTSIDE, 1_700_000_010 - 61),
        flow(HOST, OUTSIDE, 1_700_000_010 + 61),
    ]);
    let report = c.collect(&said, &filter(&["10.10.1.50"]), received_at()).unwrap();
    assert_eq!(report.rows[0].ts.secs, 1_700_000_010 - 60);
    assert_eq!(report.rows[1].ts, received_at());
    assert_eq!(report.rows[2].ts, received_at());
    assert_eq!(c.health.clock_skew_rejects, 2);
    assert_eq!(c.health.clock_skew_min_ms, Some(-61_000));
    assert_eq!(c.health.clock_skew_max_ms, Some(61_000));
    assert_eq!(c.health.clock_skew_last_ms, Some(-61_000));
}

#[test]
fn without_a_database_nothing_is_stored_or_counted() {
    let mut c = collector(None);
    let said = parsed(vec![flow(HOST, OUTSIDE, 1_700_000_000)]);
    let report = c.collect(&said, &filter(&["10.10.1.50"]), received_at()).unwrap();
    assert_eq!((report.lines.len(), report.live.len(), report.rows.len()), (1, 1, 0));
    assert_eq!(report.change.matched, 1);
    assert_eq!(c.health.clock_skew_last_ms, None);
    assert!(c.flush(&Stats::new(), received_at()).unwrap().buckets.is_empty());
}

#[test]
fn losses_and_errors_are_counted() {
    let mut c = collector(Some(db()));
    let said = ParseResult {
        flows: Vec::new(),
        has_error: true,
        sequences: vec![(100, 10), (115, 10), (130, 10)],
    };
    let report = c.collect(&said, &filter(&[]), received_at()).unwrap();
    assert_eq!((report.change.failed, report.change.seq_gap), (1, 10));
    assert_eq!((c.health.parse_failures, c.health.seq_gap), (1, 10));
    assert_eq!(c.sequences.next_expected, Some(140));
}

#[test]
fn counters_that_are_full_are_noticed() {
    let mut c = collector(Some(db()));
    let said = parsed(vec![flow(HOST, OUTSIDE, 1_700_000_000)]);
    let bucket = bucket_of(Timestamp { secs: 1_700_000_000, nanos: 0 });
    c.aggregator.add_tx(bucket, HOST, false, i64::MAX - 999);
    assert!(c.collect(&said, &filter(&["10.10.1.50"]), received_at()).is_none());

    let mut c = collector(Some(db()));
    c.health.packets_received = i64::MAX;
    assert!(c.collect(&said, &filter(&[]), received_at()).is_none());
}

#[test]
fn an_idle_window_still_has_a_health_row() {
    let mut c = collector(Some(db()));
    let batch = c.flush(&Stats::new(), received_at()).unwrap();
    assert!(batch.buckets.is_empty() && batch.days.is_empty());
    assert_eq!(batch.health.bucket, Some(Timestamp { secs: 1_699_999_980, nanos: 0 }));
    assert_eq!(batch.health.packets_received, 0);
}

#[test]
fn a_datagram_goes_all_the_way() {
    let mut bytes: Vec<u8> = Vec::new();
    bytes.extend_from_slice(&[0, 5, 0, 1]);
    bytes.extend_from_slice(&5_000_000u32.to_be_bytes());
    bytes.extend_from_slice(&1_700_000_000u32.to_be_bytes());
    bytes.extend_from_slice(&[0; 4]);
    bytes.extend_from_slice(&900u32.to_be_bytes());
    bytes.extend_from_slice(&[0; 4]);
    bytes.extend_from_slice(&HOST.to_be_bytes());
    bytes.extend_from_slice(&OUTSIDE.to_be_bytes());
    bytes.extend_from_slice(&[0; 8]);
    bytes.extend_from_slice(&3u32.to_be_bytes());
    bytes.extend_from_slice(&500u32.to_be_bytes());
    bytes.extend_from_slice(&[0; 4]);
    bytes.extend_from_slice(&4_999_000u32.to_be_bytes());
    bytes.extend_from_slice(&[0; 16]);
    let mut c = collector(Some(db()));
    let mut decoder = FlowDecoder::new();
    let (said, report) = c.receive(&mut decoder, &bytes, &filter(&["10.10.1.50"]), received_at());
    assert_eq!(said.sequences, vec![(900, 1)]);
    let report = report.unwrap();
    assert_eq!(report.rows[0].ts, Timestamp { secs: 1_699_999_999, nanos: 0 });
    assert_eq!(c.health.clock_skew_last_ms, Some(11_000));
    assert_eq!(c.sequences.next_expected, Some(901));
    let (said, report) = c.receive(&mut decoder, &[1, 2, 3], &filter(&[]), received_at());
    assert!(said.has_error);
    assert_eq!(report.unwrap().change.failed, 1);
}

#[test]
fn windows_last_a_second_at_least() {
    assert_eq!(flush_period(&None), 3600);
    assert_eq!(flush_period(&Some(db())), 60);
    assert_eq!(flush_period(&Some(DbSettings { flush_seconds: 0, ..db() })), 1);
}

#[test]
fn a_threshold_has_to_fit() {
    let netflow = |seconds: i64| NetflowConfig {
        intra_cidr: None,
        sampling_interval: 4,
        clock_skew_threshold_seconds: seconds,
    };
    let stats = StatsConfig { flush_seconds: 30 };
    let set = DbSettings::from_config(&netflow(60), &stats, db().intra).unwrap();
    assert_eq!((set.clock_skew_threshold_ms, set.sampling_interval), (60_000, 4));
    assert_eq!((set.flush_seconds, set.intra), (30, db().intra));
    assert!(DbSettings::from_config(&netflow(i64::MAX), &stats, db().intra).is_none());
}

#[test]
fn a_batch_that_is_dropped_counts_its_buckets() {
    let mut c = collector(Some(db()));
    let said = parsed(vec![flow(HOST, PEER, 1_700_000_000)]);
    c.collect(&said, &filter(&["10.10.0.0/16"]), received_at()).unwrap();
    let batch: FlushBatch = c.flush(&Stats::new(), received_at()).unwrap();
    assert_eq!(dropped(&batch).stat_failed, 2);
}

#[test]
fn a_row_that_is_dropped_counts_as_one() {
    let change = row_dropped();
    assert_eq!((change.db_failed, change.db_written, change.stat_failed), (1, 0, 0));
}
