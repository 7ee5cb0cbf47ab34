//! What the collector does with each datagram, and what it hands on when a window ends.

use vstd::prelude::*;

use crate::aggregator::{self, Aggregator, StatKey, Tally};
use crate::cidr;
use crate::config::{NetflowConfig, StatsConfig};
use crate::db::{FlowRow, FlushBatch, IntraCidr};
use crate::filter::{FilterConfig, Groups, MatchResult};
use crate::ledger;
use crate::live::LiveRecord;
use crate::parser::{self, FlowDecoder, FlowRecord, ParseResult};
use crate::printer::{self, PrintContext, ShownFlow};
use crate::stats::{self, HealthAccumulator, SequenceTracker, Stats};
use crate::time::{self, Timestamp};

verus! {

// ── settings ────────────────────────────────────────────────────────────────

/// What is printed.
#[derive(Clone, Copy, Debug, PartialEq, Eq, Structural)]
pub struct RunOptions {
    pub direct_print: bool,
    pub color: bool,
}

/// How flows are stored and counted.
#[derive(Clone, Copy, Debug, PartialEq, Eq, Structural)]
pub struct DbSettings {
    pub intra: IntraCidr,
    pub sampling_interval: i32,
    pub clock_skew_threshold_ms: i64,
    pub flush_seconds: u64,
}

impl DbSettings {
    /// The settings, once the boundary of the intranet has been read; `None` where the threshold is
    /// beyond what a number of milliseconds can hold.
    pub fn from_config(netflow: &NetflowConfig, stats: &StatsConfig, intra: IntraCidr) -> (r: Option<
        Self,
    >)
        ensures
            r is Some <==> i64::MIN <= netflow.clock_skew_threshold_seconds * 1000 <= i64::MAX,
            r matches Some(set) ==> {
                &&& set.intra == intra
                &&& set.sampling_interval == netflow.sampling_interval
                &&& set.clock_skew_threshold_ms == netflow.clock_skew_threshold_seconds * 1000
                &&& set.flush_seconds == stats.flush_seconds
            },
    {
        match netflow.clock_skew_threshold_seconds.checked_mul(1000) {
            Some(clock_skew_threshold_ms) => Some(
                DbSettings {
                    intra,
                    sampling_interval: netflow.sampling_interval,
                    clock_skew_threshold_ms,
                    flush_seconds: stats.flush_seconds,
                },
            ),
            None => None,
        }
    }
}

/// How many seconds a window lasts: as set, but one at least, and an hour where nothing is stored.
pub fn flush_period(db: &Option<DbSettings>) -> (r: u64)
    ensures
        r == (match *db {
            Some(set) => if set.flush_seconds > 1 {
                set.flush_seconds
            } else {
                1
            },
            None => 3600,
        }),
{
    let seconds: u64 = match db {
        Some(set) => set.flush_seconds,
        None => 3600,
    };
    if seconds > 1 {
        seconds
    } else {
        1
    }
}

// ── one flow ────────────────────────────────────────────────────────────────

/// Whether a side of a flow matches the filter.
pub open spec fn is_match(filter: Groups, flow: FlowRecord) -> bool {
    filter.src_matches(flow.src_addr) || filter.dst_matches(flow.dst_addr)
}

/// The flows that match, in order.
pub open spec fn matching(filter: Groups, flows: Seq<FlowRecord>) -> Seq<FlowRecord>
    decreases flows.len(),
{
    if flows.len() == 0 {
        Seq::empty()
    } else if is_match(filter, flows.last()) {
        matching(filter, flows.drop_last()).push(flows.last())
    } else {
        matching(filter, flows.drop_last())
    }
}

/// How far the end of a flow is behind the time at which it came in, in milliseconds.
pub open spec fn skew_of(received_at: Timestamp, flow: FlowRecord) -> int {
    time::millis_from_nanos(received_at.total_nanos() - flow.ts.total_nanos())
}

/// Whether that is further than the exporter's clock is trusted.
pub open spec fn is_rejected(received_at: Timestamp, flow: FlowRecord, db: DbSettings) -> bool {
    skew_of(received_at, flow) > db.clock_skew_threshold_ms || -skew_of(received_at, flow)
        > db.clock_skew_threshold_ms
}

/// The time under which a flow is stored: its end, or the time at which it came in, where the
/// exporter's clock is not trusted.
pub open spec fn stored_at(received_at: Timestamp, flow: FlowRecord, db: DbSettings) -> Timestamp {
    if is_rejected(received_at, flow, db) {
        received_at
    } else {
        flow.ts
    }
}

/// A flow as it is stored.
pub open spec fn row_of(received_at: Timestamp, flow: FlowRecord, db: DbSettings) -> FlowRow {
    FlowRow {
        ts: stored_at(received_at, flow, db),
        src_addr: flow.src_addr,
        dst_addr: flow.dst_addr,
        src_port: flow.src_port as i32,
        dst_port: flow.dst_port as i32,
        protocol: flow.protocol_number as i16,
        packets: flow.d_pkts as i64,
        bytes: flow.d_octets as i64,
        tcp_flags: flow.tcp_flags as i16,
        input: flow.input as i32,
        output: flow.output as i32,
        tos: flow.tos as i16,
        sampling_interval: db.sampling_interval,
    }
}

/// The bytes that a flow stands for.
pub open spec fn bytes_of(flow: FlowRecord, db: DbSettings) -> int {
    flow.d_octets * db.sampling_interval
}

/// What the sender's counters are kept by.
pub open spec fn src_key(received_at: Timestamp, flow: FlowRecord, db: DbSettings) -> StatKey {
    StatKey { bucket: aggregator::bucket(stored_at(received_at, flow, db)), addr: flow.src_addr }
}

/// What the receiver's counters are kept by.
pub open spec fn dst_key(received_at: Timestamp, flow: FlowRecord, db: DbSettings) -> StatKey {
    StatKey { bucket: aggregator::bucket(stored_at(received_at, flow, db)), addr: flow.dst_addr }
}

/// What a flow adds to the sender's counters.
pub open spec fn src_gain(flow: FlowRecord, db: DbSettings) -> Tally {
    aggregator::sent(
        cidr::in_network(db.intra.network, db.intra.mask, flow.dst_addr),
        bytes_of(flow, db),
    )
}

/// What a flow adds to the receiver's counters.
pub open spec fn dst_gain(flow: FlowRecord, db: DbSettings) -> Tally {
    aggregator::received(
        cidr::in_network(db.intra.network, db.intra.mask, flow.src_addr),
        bytes_of(flow, db),
    )
}

/// The counters once the sender's side of a flow has been counted, where it matches.
pub open spec fn with_src(
    m: Map<StatKey, Tally>,
    filter: Groups,
    received_at: Timestamp,
    flow: FlowRecord,
    db: DbSettings,
) -> Map<StatKey, Tally> {
    if filter.src_matches(flow.src_addr) {
        ledger::with_added(m, src_key(received_at, flow, db), src_gain(flow, db))
    } else {
        m
    }
}

/// The counters once both sides of a flow have been counted, as far as they match.
pub open spec fn with_flow(
    m: Map<StatKey, Tally>,
    filter: Groups,
    received_at: Timestamp,
    flow: FlowRecord,
    db: DbSettings,
) -> Map<StatKey, Tally> {
    let half = with_src(m, filter, received_at, flow, db);
    if filter.dst_matches(flow.dst_addr) {
        ledger::with_added(half, dst_key(received_at, flow, db), dst_gain(flow, db))
    } else {
        half
    }
}

/// Whether counters can hold what counting a flow makes of them.
pub open spec fn flow_fits(
    m: Map<StatKey, Tally>,
    filter: Groups,
    received_at: Timestamp,
    flow: FlowRecord,
    db: DbSettings,
) -> bool {
    &&& filter.src_matches(flow.src_addr) ==> ledger::tally_at(
        m,
        src_key(received_at, flow, db),
    ).plus(src_gain(flow, db)).fits()
    &&& filter.dst_matches(flow.dst_addr) ==> ledger::tally_at(
        with_src(m, filter, received_at, flow, db),
        dst_key(received_at, flow, db),
    ).plus(dst_gain(flow, db)).fits()
}

// ── many flows ──────────────────────────────────────────────────────────────

/// The counters once flows have been counted.
pub open spec fn with_flows(
    m: Map<StatKey, Tally>,
    filter: Groups,
    received_at: Timestamp,
    flows: Seq<FlowRecord>,
    db: DbSettings,
) -> Map<StatKey, Tally>
    decreases flows.len(),
{
    if flows.len() == 0 {
        m
    } else {
        with_flow(
            with_flows(m, filter, received_at, flows.drop_last(), db),
            filter,
            received_at,
            flows.last(),
            db,
        )
    }
}

/// The window once the skew of each flow has been noted.
pub open spec fn with_skews(
    window: HealthAccumulator,
    received_at: Timestamp,
    flows: Seq<FlowRecord>,
    db: DbSettings,
) -> HealthAccumulator
    decreases flows.len(),
{
    if flows.len() == 0 {
        window
    } else {
        with_skews(window, received_at, flows.drop_last(), db).with_skew(
            skew_of(received_at, flows.last()) as i64,
            is_rejected(received_at, flows.last(), db),
        )
    }
}

/// Whether counters can hold what storing flows makes of them, all the way.
pub open spec fn storing_fits(
    m: Map<StatKey, Tally>,
    window: HealthAccumulator,
    filter: Groups,
    received_at: Timestamp,
    flows: Seq<FlowRecord>,
    db: DbSettings,
) -> bool
    decreases flows.len(),
{
    flows.len() == 0 || {
        &&& storing_fits(m, window, filter, received_at, flows.drop_last(), db)
        &&& is_rejected(received_at, flows.last(), db) ==> with_skews(
            window,
            received_at,
            flows.drop_last(),
            db,
        ).clock_skew_rejects < i64::MAX
        &&& flow_fits(
            with_flows(m, filter, received_at, flows.drop_last(), db),
            filter,
            received_at,
            flows.last(),
            db,
        )
    }
}

/// Where storing flows fits, storing the first of them does.
proof fn lemma_storing_fits_so_far(
    m: Map<StatKey, Tally>,
    window: HealthAccumulator,
    filter: Groups,
    received_at: Timestamp,
    flows: Seq<FlowRecord>,
    db: DbSettings,
    n: int,
)
    requires
        0 <= n <= flows.len(),
        storing_fits(m, window, filter, received_at, matching(filter, flows), db),
    ensures
        storing_fits(m, window, filter, received_at, matching(filter, flows.take(n)), db),
    decreases flows.len() - n,
{
    if n == flows.len() {
        assert(flows.take(n) =~= flows);
    } else {
        lemma_storing_fits_so_far(m, window, filter, received_at, flows, db, n + 1);
        assert(flows.take(n + 1).drop_last() =~= flows.take(n));
        let here = matching(filter, flows.take(n));
        if is_match(filter, flows[n]) {
            assert(matching(filter, flows.take(n + 1)) == here.push(flows[n]));
            assert(here.push(flows[n]).drop_last() =~= here);
        }
    }
}

/// How many records are presumed lost before packets.
pub open spec fn lost_in(expected: Option<u32>, sequences: Seq<(u32, u16)>) -> int
    decreases sequences.len(),
{
    if sequences.len() == 0 {
        0
    } else {
        lost_in(expected, sequences.drop_last()) + stats::lost_before(
            expected_in(expected, sequences.drop_last()),
            sequences.last().0,
        )
    }
}

/// The number that the packet after packets should start with.
pub open spec fn expected_in(expected: Option<u32>, sequences: Seq<(u32, u16)>) -> Option<u32> {
    if sequences.len() == 0 {
        expected
    } else {
        Some(stats::expected_after(sequences.last().0, sequences.last().1))
    }
}

// ── what is shown ───────────────────────────────────────────────────────────

/// A flow, as far as a line shows it.
pub open spec fn shown(flow: FlowRecord) -> ShownFlow {
    ShownFlow {
        src_addr: flow.src_addr,
        src_port: flow.src_port,
        dst_addr: flow.dst_addr,
        dst_port: flow.dst_port,
        d_pkts: flow.d_pkts,
        d_octets: flow.d_octets,
    }
}

/// A flow for the live monitor.
pub open spec fn live_record(filter: Groups, flow: FlowRecord) -> LiveRecord {
    LiveRecord {
        src_addr: flow.src_addr,
        src_port: flow.src_port,
        dst_addr: flow.dst_addr,
        dst_port: flow.dst_port,
        d_pkts: flow.d_pkts,
        d_octets: flow.d_octets,
        src_matched: filter.src_matches(flow.src_addr),
        dst_matched: filter.dst_matches(flow.dst_addr),
    }
}

/// The lines that are printed for flows that match.
pub open spec fn printed(
    opts: RunOptions,
    filter: Groups,
    ports: Set<u16>,
    flows: Seq<FlowRecord>,
) -> Seq<Seq<char>> {
    if opts.direct_print {
        Seq::new(
            flows.len(),
            |i: int|
                printer::flow_text(
                    shown(flows[i]),
                    opts.color,
                    filter.src_matches(flows[i].src_addr),
                    filter.dst_matches(flows[i].dst_addr),
                    ports,
                ),
        )
    } else {
        Seq::empty()
    }
}

/// What the live monitor gets for flows that match.
pub open spec fn live_records(live: bool, filter: Groups, flows: Seq<FlowRecord>) -> Seq<LiveRecord> {
    if live {
        Seq::new(flows.len(), |i: int| live_record(filter, flows[i]))
    } else {
        Seq::empty()
    }
}

/// The rows that are stored for flows that match.
pub open spec fn stored_rows(
    received_at: Timestamp,
    flows: Seq<FlowRecord>,
    db: DbSettings,
) -> Seq<FlowRow> {
    Seq::new(flows.len(), |i: int| row_of(received_at, flows[i], db))
}

/// Lines as texts.
pub open spec fn texts(lines: Seq<String>) -> Seq<Seq<char>> {
    Seq::new(lines.len(), |i: int| lines[i]@)
}

/// What one datagram leads to.
pub struct Report {
    /// What to add to the totals.
    pub change: Stats,
    /// What to print.
    pub lines: Vec<String>,
    /// What to hand to the live monitor.
    pub live: Vec<LiveRecord>,
    /// What to store.
    pub rows: Vec<FlowRow>,
}

// ── the collector ───────────────────────────────────────────────────────────

/// What the collector knows between datagrams.
pub struct Collector {
    pub opts: RunOptions,
    /// Whether there is a live monitor.
    pub live: bool,
    /// How flows are stored and counted, where they are.
    pub db: Option<DbSettings>,
    pub aggregator: Aggregator,
    pub sequences: SequenceTracker,
    pub health: HealthAccumulator,
}

/// The window once a packet and what was lost before it have been noted.
pub open spec fn with_packet(window: HealthAccumulator, has_error: bool, lost: int) -> HealthAccumulator {
    HealthAccumulator {
        packets_received: (window.packets_received + 1) as i64,
        parse_failures: (window.parse_failures + if has_error { 1int } else { 0 }) as i64,
        seq_gap: (window.seq_gap + lost) as i64,
        ..window
    }
}

/// The window once flows that match have been noted, with their skews where they are stored.
pub open spec fn with_matching(
    window: HealthAccumulator,
    received_at: Timestamp,
    flows: Seq<FlowRecord>,
    db: Option<DbSettings>,
) -> HealthAccumulator {
    match db {
        Some(set) => with_skews(window, received_at, flows, set),
        None => window,
    }
}

/// The window once a datagram has been dealt with.
pub open spec fn window_after(
    window: HealthAccumulator,
    expected: Option<u32>,
    parsed: ParseResult,
    filter: Groups,
    received_at: Timestamp,
    db: Option<DbSettings>,
) -> HealthAccumulator {
    let lost = lost_in(expected, parsed.sequences@);
    let flows = matching(filter, parsed.flows@);
    let noted = with_matching(
        with_packet(window, parsed.has_error, lost),
        received_at,
        flows,
        db,
    );
    HealthAccumulator {
        flows_parsed: (noted.flows_parsed + parsed.flows@.len()) as i64,
        flows_matched: (noted.flows_matched + flows.len()) as i64,
        ..noted
    }
}

/// The counters once a datagram has been dealt with.
pub open spec fn counters_after(
    m: Map<StatKey, Tally>,
    parsed: ParseResult,
    filter: Groups,
    received_at: Timestamp,
    db: Option<DbSettings>,
) -> Map<StatKey, Tally> {
    match db {
        Some(set) => with_flows(m, filter, received_at, matching(filter, parsed.flows@), set),
        None => m,
    }
}

/// What a datagram adds to the totals.
pub open spec fn change_of(
    expected: Option<u32>,
    parsed: ParseResult,
    filter: Groups,
) -> Stats {
    Stats {
        received: 1,
        failed: if parsed.has_error {
            1
        } else {
            0
        },
        parsed: parsed.flows@.len() as u64,
        matched: matching(filter, parsed.flows@).len() as u64,
        seq_gap: lost_in(expected, parsed.sequences@) as u64,
        ..Stats::zero()
    }
}

/// Whether counters can hold what a datagram makes of them.
pub open spec fn datagram_fits(
    m: Map<StatKey, Tally>,
    window: HealthAccumulator,
    expected: Option<u32>,
    parsed: ParseResult,
    filter: Groups,
    received_at: Timestamp,
    db: Option<DbSettings>,
) -> bool {
    let lost = lost_in(expected, parsed.sequences@);
    let flows = matching(filter, parsed.flows@);
    &&& window.packets_received < i64::MAX
    &&& parsed.has_error ==> window.parse_failures < i64::MAX
    &&& window.seq_gap + lost <= i64::MAX
    &&& window.flows_parsed + parsed.flows@.len() <= i64::MAX
    &&& window.flows_matched + flows.len() <= i64::MAX
    &&& db matches Some(set) ==> storing_fits(
        m,
        with_packet(window, parsed.has_error, lost),
        filter,
        received_at,
        flows,
        set,
    )
}

/// No more flows match than there are.
proof fn lemma_matching_is_some(filter: Groups, flows: Seq<FlowRecord>)
    ensures
        matching(filter, flows).len() <= flows.len(),
    decreases flows.len(),
{
    if flows.len() > 0 {
        lemma_matching_is_some(filter, flows.drop_last());
    }
}

impl Collector {
    /// The counters are filed as they should be, for days that the calendar has, and no count is
    /// below zero.
    pub open spec fn wf(&self) -> bool {
        &&& self.aggregator.wf()
        &&& aggregator::days_exist(self.aggregator@)
        &&& self.health.wf()
    }

    /// A collector at the start.
    pub fn new(opts: RunOptions, live: bool, db: Option<DbSettings>, stats: &Stats) -> (r: Self)
        ensures
            r.wf(),
            r.opts == opts,
            r.live == live,
            r.db == db,
            r.aggregator@ == Map::<StatKey, Tally>::empty(),
            r.sequences.next_expected is None,
            r.health == HealthAccumulator::empty(stats.db_written, stats.db_failed),
    {
        Collector {
            opts,
            live,
            db,
            aggregator: Aggregator::new(),
            sequences: SequenceTracker::default(),
            health: HealthAccumulator::new(stats),
        }
    }

    /// Takes note of the sequence numbers of packets; how many records are presumed lost.
    fn note_sequences(&mut self, sequences: &Vec<(u32, u16)>) -> (r: u128)
        ensures
            r == lost_in(old(self).sequences.next_expected, sequences@),
            final(self).sequences.next_expected == expected_in(
                old(self).sequences.next_expected,
                sequences@,
            ),
            final(self).opts == old(self).opts,
            final(self).live == old(self).live,
            final(self).db == old(self).db,
            final(self).aggregator == old(self).aggregator,
            final(self).health == old(self).health,
            r < 0x1_0000_0000_0000_0000_0000_0000,
    {
        let ghost start = self.sequences.next_expected;
        let mut lost: u128 = 0;
        let mut i: usize = 0;
        while i < sequences.len()
            invariant
                i <= sequences.len(),
                lost == lost_in(start, sequences@.take(i as int)),
                lost <= i * stats::SANE_GAP_LIMIT,
                self.sequences.next_expected == expected_in(start, sequences@.take(i as int)),
                self.opts == old(self).opts,
                self.live == old(self).live,
                self.db == old(self).db,
                self.aggregator == old(self).aggregator,
                self.health == old(self).health,
            decreases sequences.len() - i,
        {
            let (sequence, count) = sequences[i];
            let gap: u64 = self.sequences.observe(sequence, count);
            proof {
                let next = sequences@.take(i + 1);
                assert(next.drop_last() =~= sequences@.take(i as int));
                assert(next.last() == (sequence, count));
            }
            lost = lost + gap as u128;
            i += 1;
        }
        assert(sequences@.take(i as int) =~= sequences@);
        lost
    }

    /// Adds what is shown of a flow that matches to a report.
    fn show(&self, flow: &FlowRecord, matched: &MatchResult, filter: &FilterConfig, report: &mut Report)
        requires
            matched.src_matched == filter@.src_matches(flow.src_addr),
            matched.dst_matched == filter@.dst_matches(flow.dst_addr),
        ensures
            final(report).change == old(report).change,
            final(report).rows == old(report).rows,
            texts(final(report).lines@) == (if self.opts.direct_print {
                texts(old(report).lines@).push(
                    printer::flow_text(
                        shown(*flow),
                        self.opts.color,
                        filter@.src_matches(flow.src_addr),
                        filter@.dst_matches(flow.dst_addr),
                        filter.highlighted_ports@,
                    ),
                )
            } else {
                texts(old(report).lines@)
            }),
            final(report).live@ == (if self.live {
                old(report).live@.push(live_record(filter@, *flow))
            } else {
                old(report).live@
            }),
    {
        if self.opts.direct_print {
            let ctx = PrintContext {
                color: self.opts.color,
                src_matched: matched.src_matched,
                dst_matched: matched.dst_matched,
                highlighted_ports: &filter.highlighted_ports,
            };
            let line = printer::flow_line(
                &ShownFlow {
                    src_addr: flow.src_addr,
                    src_port: flow.src_port,
                    dst_addr: flow.dst_addr,
                    dst_port: flow.dst_port,
                    d_pkts: flow.d_pkts,
                    d_octets: flow.d_octets,
                },
                &ctx,
            );
            let ghost before = texts(report.lines@);
            report.lines.push(line);
            assert(texts(report.lines@) =~= before.push(line@));
        }
        if self.live {
            report.live.push(
                LiveRecord {
                    src_addr: flow.src_addr,
                    src_port: flow.src_port,
                    dst_addr: flow.dst_addr,
                    dst_port: flow.dst_port,
                    d_pkts: flow.d_pkts,
                    d_octets: flow.d_octets,
                    src_matched: matched.src_matched,
                    dst_matched: matched.dst_matched,
                },
            );
        }
    }

    /// Notes the skew of a flow that matches and counts its sides; the row to store.
    ///
    /// `None` where a counter cannot hold what becomes of it.
    fn store(
        &mut self,
        flow: &FlowRecord,
        matched: &MatchResult,
        filter: Ghost<Groups>,
        received_at: Timestamp,
        db: &DbSettings,
    ) -> (r: Option<FlowRow>)
        requires
            old(self).wf(),
            flow.wf(),
            received_at.regular(),
            aggregator::has_local_day(received_at),
            matched.src_matched == filter@.src_matches(flow.src_addr),
            matched.dst_matched == filter@.dst_matches(flow.dst_addr),
        ensures
            final(self).wf(),
            final(self).opts == old(self).opts,
            final(self).live == old(self).live,
            final(self).db == old(self).db,
            final(self).sequences == old(self).sequences,
            r is Some <==> {
                &&& is_rejected(received_at, *flow, *db) ==> old(self).health.clock_skew_rejects
                    < i64::MAX
                &&& flow_fits(old(self).aggregator@, filter@, received_at, *flow, *db)
            },
            r matches Some(row) ==> {
                &&& row == row_of(received_at, *flow, *db)
                &&& final(self).health == old(self).health.with_skew(
                    skew_of(received_at, *flow) as i64,
                    is_rejected(received_at, *flow, *db),
                )
                &&& final(self).aggregator@ == with_flow(
                    old(self).aggregator@,
                    filter@,
                    received_at,
                    *flow,
                    *db,
                )
            },
    {
        let skew_ms: i64 = time::millis_between(received_at, flow.ts);
        let magnitude: i64 = if skew_ms < 0 {
            -skew_ms
        } else {
            skew_ms
        };
        let rejected = magnitude > db.clock_skew_threshold_ms;
        assert(rejected == is_rejected(received_at, *flow, *db));
        if rejected && self.health.clock_skew_rejects == i64::MAX {
            return None;
        }
        self.health.clock_skew(skew_ms, rejected);
        let ts = if rejected {
            received_at
        } else {
            flow.ts
        };
        let row = FlowRow {
            ts,
            src_addr: flow.src_addr,
            dst_addr: flow.dst_addr,
            src_port: flow.src_port as i32,
            dst_port: flow.dst_port as i32,
            protocol: flow.protocol_number as i16,
            packets: flow.d_pkts as i64,
            bytes: flow.d_octets as i64,
            tcp_flags: flow.tcp_flags as i16,
            input: flow.input as i32,
            output: flow.output as i32,
            tos: flow.tos as i16,
            sampling_interval: db.sampling_interval,
        };
        let bucket = aggregator::bucket_of(ts);
        assert(-0x8000_0000_0000_0000 < flow.d_octets * db.sampling_interval
            < 0x8000_0000_0000_0000) by (nonlinear_arith)
            requires
                0 <= flow.d_octets <= u32::MAX,
                i32::MIN <= db.sampling_interval <= i32::MAX,
        ;
        let bytes: i64 = flow.d_octets as i64 * db.sampling_interval as i64;
        if matched.src_matched {
            let intra = db.intra.contains(flow.dst_addr);
            if !self.aggregator.can_add_tx(bucket, flow.src_addr, intra, bytes) {
                return None;
            }
            self.aggregator.add_tx(bucket, flow.src_addr, intra, bytes);
        }
        if matched.dst_matched {
            let intra = db.intra.contains(flow.src_addr);
            if !self.aggregator.can_add_rx(bucket, flow.dst_addr, intra, bytes) {
                return None;
            }
            self.aggregator.add_rx(bucket, flow.dst_addr, intra, bytes);
        }
        Some(row)
    }

    /// Deals with what a datagram says: counts it, and for each flow that matches the filter prints
    /// it, shows it and stores it, as far as these are wanted.
    ///
    /// `None` where a counter cannot hold what becomes of it; part of the datagram is then counted.
    pub fn collect(&mut self, parsed: &ParseResult, filter: &FilterConfig, received_at: Timestamp) -> (r:
        Option<Report>)
        requires
            old(self).wf(),
            received_at.regular(),
            aggregator::has_local_day(received_at),
            forall|i: int| 0 <= i < parsed.flows@.len() ==> (#[trigger] parsed.flows@[i]).wf(),
        ensures
            final(self).wf(),
            final(self).opts == old(self).opts,
            final(self).live == old(self).live,
            final(self).db == old(self).db,
            r is Some <==> datagram_fits(
                old(self).aggregator@,
                old(self).health,
                old(self).sequences.next_expected,
                *parsed,
                filter@,
                received_at,
                old(self).db,
            ),
            r matches Some(report) ==> {
                let flows = matching(filter@, parsed.flows@);
                let expected = old(self).sequences.next_expected;
                &&& final(self).aggregator@ == counters_after(
                    old(self).aggregator@,
                    *parsed,
                    filter@,
                    received_at,
                    old(self).db,
                )
                &&& final(self).health == window_after(
                    old(self).health,
                    expected,
                    *parsed,
                    filter@,
                    received_at,
                    old(self).db,
                )
                &&& final(self).sequences.next_expected == expected_in(expected, parsed.sequences@)
                &&& report.change == change_of(expected, *parsed, filter@)
                &&& texts(report.lines@) == printed(
                    old(self).opts,
                    filter@,
                    filter.highlighted_ports@,
                    flows,
                )
                &&& report.live@ == live_records(old(self).live, filter@, flows)
                &&& report.rows@ == (match old(self).db {
                    Some(set) => stored_rows(received_at, flows, set),
                    None => Seq::empty(),
                })
            },
            r matches Some(report) ==> {
                let flows = matching(filter@, parsed.flows@);
                let lost = lost_in(old(self).sequences.next_expected, parsed.sequences@);
                let before = old(self).health;
                let after = final(self).health;
                &&& old(self).db is None ==> final(self).aggregator@ == old(self).aggregator@
                    && report.rows@.len() == 0
                &&& old(self).db matches Some(set) ==> {
                    &&& final(self).aggregator@ == with_flows(
                        old(self).aggregator@,
                        filter@,
                        received_at,
                        flows,
                        set,
                    )
                    &&& report.rows@.len() == flows.len()
                    &&& forall|i: int|
                        0 <= i < flows.len() ==> #[trigger] report.rows@[i] == row_of(
                            received_at,
                            flows[i],
                            set,
                        )
                }
                &&& report.live@.len() == if old(self).live {
                    flows.len()
                } else {
                    0
                }
                &&& report.lines@.len() == if old(self).opts.direct_print {
                    flows.len()
                } else {
                    0
                }
                &&& after.packets_received == before.packets_received + 1
                &&& after.parse_failures == before.parse_failures + if parsed.has_error {
                    1int
                } else {
                    0
                }
                &&& after.seq_gap == before.seq_gap + lost
                &&& after.flows_parsed == before.flows_parsed + parsed.flows@.len()
                &&& after.flows_matched == before.flows_matched + flows.len()
                &&& after.prev_db_written == before.prev_db_written
                &&& after.prev_db_failed == before.prev_db_failed
                &&& report.change.received == 1
                &&& report.change.failed == if parsed.has_error {
                    1int
                } else {
                    0
                }
                &&& report.change.parsed == parsed.flows@.len()
                &&& report.change.matched == flows.len()
                &&& report.change.seq_gap == lost
            },
    {
        let ghost start = *self;
        let ghost expected = self.sequences.next_expected;
        if self.health.packets_received == i64::MAX {
            return None;
        }
        if parsed.has_error && self.health.parse_failures == i64::MAX {
            return None;
        }
        let lost: u128 = self.note_sequences(&parsed.sequences);
        if lost + self.health.seq_gap as u128 > i64::MAX as u128 {
            return None;
        }
        let total: u128 = parsed.flows.len() as u128 + self.health.flows_parsed as u128;
        if total > i64::MAX as u128 {
            return None;
        }
        self.health.packet(parsed.has_error);
        self.health.lost(lost as u64);
        let ghost noted = self.health;
        assert(noted == with_packet(start.health, parsed.has_error, lost as int));

        let mut report = Report {
            change: Stats::new(),
            lines: Vec::new(),
            live: Vec::new(),
            rows: Vec::new(),
        };
        let mut matched_here: usize = 0;
        let mut i: usize = 0;
        assert(parsed.flows@.take(0) =~= Seq::empty());
        assert(texts(report.lines@) =~= Seq::empty());
        assert(printed(self.opts, filter@, filter.highlighted_ports@, Seq::empty()) =~= Seq::empty());
        assert(live_records(self.live, filter@, Seq::empty()) =~= Seq::empty());
        while i < parsed.flows.len()
            invariant
                i <= parsed.flows.len(),
                matched_here <= i,
                received_at.regular(),
                aggregator::has_local_day(received_at),
                forall|k: int| 0 <= k < parsed.flows@.len() ==> (#[trigger] parsed.flows@[k]).wf(),
                start == *old(self),
                self.wf(),
                self.opts == start.opts,
                self.live == start.live,
                self.db == start.db,
                self.sequences.next_expected == expected_in(expected, parsed.sequences@),
                expected == start.sequences.next_expected,
                lost == lost_in(expected, parsed.sequences@),
                noted == with_packet(start.health, parsed.has_error, lost as int),
                report.change == Stats::zero(),
                ({
                    let flows = matching(filter@, parsed.flows@.take(i as int));
                    &&& matched_here == flows.len()
                    &&& self.health == with_matching(noted, received_at, flows, start.db)
                    &&& texts(report.lines@) == printed(
                        start.opts,
                        filter@,
                        filter.highlighted_ports@,
                        flows,
                    )
                    &&& report.live@ == live_records(start.live, filter@, flows)
                    &&& match start.db {
                        Some(set) => {
                            &&& self.aggregator@ == with_flows(
                                start.aggregator@,
                                filter@,
                                received_at,
                                flows,
                                set,
                            )
                            &&& report.rows@ == stored_rows(received_at, flows, set)
                            &&& storing_fits(
                                start.aggregator@,
                                noted,
                                filter@,
                                received_at,
                                flows,
                                set,
                            )
                        },
                        None => {
                            &&& self.aggregator@ == start.aggregator@
                            &&& report.rows@ == Seq::<FlowRow>::empty()
                        },
                    }
                }),
            decreases parsed.flows.len() - i,
        {
            let flow = &parsed.flows[i];
            let matched = filter.check(flow.src_addr, flow.dst_addr);
            let ghost flows = matching(filter@, parsed.flows@.take(i as int));
            let ghost more = matching(filter@, parsed.flows@.take(i + 1));
            proof {
                assert(parsed.flows@.take(i + 1).drop_last() =~= parsed.flows@.take(i as int));
                assert(parsed.flows@.take(i + 1).last() == *flow);
                assert(flows.push(*flow).drop_last() =~= flows);
            }
            if matched.is_match() {
                self.show(flow, &matched, filter, &mut report);
                proof {
                    assert(more == flows.push(*flow));
                    assert(texts(report.lines@) =~= printed(
                        start.opts,
                        filter@,
                        filter.highlighted_ports@,
                        more,
                    ));
                    assert(report.live@ =~= live_records(start.live, filter@, more));
                }
                matched_here += 1;
                let settings = self.db;
                if let Some(set) = settings {
                    match self.store(flow, &matched, Ghost(filter@), received_at, &set) {
                        Some(row) => {
                            report.rows.push(row);
                            assert(report.rows@ =~= stored_rows(received_at, more, set));
                        },
                        None => {
                            proof {
                                if storing_fits(
                                    start.aggregator@,
                                    noted,
                                    filter@,
                                    received_at,
                                    matching(filter@, parsed.flows@),
                                    set,
                                ) {
                                    lemma_storing_fits_so_far(
                                        start.aggregator@,
                                        noted,
                                        filter@,
                                        received_at,
                                        parsed.flows@,
                                        set,
                                        i + 1,
                                    );
                                }
                            }
                            return None;
                        },
                    }
                }
            }
            i += 1;
        }
        proof {
            assert(parsed.flows@.take(i as int) =~= parsed.flows@);
            lemma_skews_keep_counts(noted, received_at, matching(filter@, parsed.flows@), start.db);
            lemma_matching_is_some(filter@, parsed.flows@);
        }
        let matched_total: u128 = matched_here as u128 + self.health.flows_matched as u128;
        if matched_total > i64::MAX as u128 {
            return None;
        }
        self.health.flows(parsed.flows.len(), matched_here);
        report.change.received = 1;
        report.change.failed = if parsed.has_error {
            1
        } else {
            0
        };
        report.change.parsed = parsed.flows.len() as u64;
        report.change.matched = matched_here as u64;
        report.change.seq_gap = lost as u64;
        proof {
            a_datagram_counts_what_it_holds(
                start.aggregator@,
                start.health,
                expected,
                *parsed,
                filter@,
                received_at,
                start.db,
            );
            assert(texts(report.lines@).len() == report.lines@.len());
        }
        Some(report)
    }
}

impl Collector {
    /// Deals with a datagram: reads it, and then does all that follows from what it says.
    ///
    /// What it says comes back along with the report; `None` in place of the report where a counter
    /// cannot hold what becomes of it.
    pub fn receive(
        &mut self,
        decoder: &mut FlowDecoder,
        buf: &[u8],
        filter: &FilterConfig,
        received_at: Timestamp,
    ) -> (r: (ParseResult, Option<Report>))
        requires
            old(self).wf(),
            received_at.regular(),
            aggregator::has_local_day(received_at),
        ensures
            final(self).wf(),
            final(self).opts == old(self).opts,
            final(self).live == old(self).live,
            final(self).db == old(self).db,
            final(decoder).fed() == old(decoder).fed().push(buf@),
            r.0.says(old(decoder).fed(), buf@),
            r.1 is Some <==> datagram_fits(
                old(self).aggregator@,
                old(self).health,
                old(self).sequences.next_expected,
                r.0,
                filter@,
                received_at,
                old(self).db,
            ),
            r.1 matches Some(report) ==> {
                let flows = matching(filter@, r.0.flows@);
                let expected = old(self).sequences.next_expected;
                &&& final(self).aggregator@ == counters_after(
                    old(self).aggregator@,
                    r.0,
                    filter@,
                    received_at,
                    old(self).db,
                )
                &&& final(self).health == window_after(
                    old(self).health,
                    expected,
                    r.0,
                    filter@,
                    received_at,
                    old(self).db,
                )
                &&& final(self).sequences.next_expected == expected_in(expected, r.0.sequences@)
                &&& report.change == change_of(expected, r.0, filter@)
                &&& texts(report.lines@) == printed(
                    old(self).opts,
                    filter@,
                    filter.highlighted_ports@,
                    flows,
                )
                &&& report.live@ == live_records(old(self).live, filter@, flows)
                &&& report.rows@ == (match old(self).db {
                    Some(set) => stored_rows(received_at, flows, set),
                    None => Seq::empty(),
                })
            },
            r.1 matches Some(report) ==> {
                let flows = matching(filter@, r.0.flows@);
                let lost = lost_in(old(self).sequences.next_expected, r.0.sequences@);
                let before = old(self).health;
                let after = final(self).health;
                &&& old(self).db is None ==> final(self).aggregator@ == old(self).aggregator@
                    && report.rows@.len() == 0
                &&& old(self).db matches Some(set) ==> {
                    &&& final(self).aggregator@ == with_flows(
                        old(self).aggregator@,
                        filter@,
                        received_at,
                        flows,
                        set,
                    )
                    &&& report.rows@.len() == flows.len()
                    &&& forall|i: int|
                        0 <= i < flows.len() ==> #[trigger] report.rows@[i] == row_of(
                            received_at,
                            flows[i],
                            set,
                        )
                }
                &&& report.live@.len() == if old(self).live {
                    flows.len()
                } else {
                    0
                }
                &&& report.lines@.len() == if old(self).opts.direct_print {
                    flows.len()
                } else {
                    0
                }
                &&& after.packets_received == before.packets_received + 1
                &&& after.parse_failures == before.parse_failures + if r.0.has_error {
                    1int
                } else {
                    0
                }
                &&& after.seq_gap == before.seq_gap + lost
                &&& after.flows_parsed == before.flows_parsed + r.0.flows@.len()
                &&& after.flows_matched == before.flows_matched + flows.len()
                &&& after.prev_db_written == before.prev_db_written
                &&& after.prev_db_failed == before.prev_db_failed
                &&& report.change.received == 1
                &&& report.change.failed == if r.0.has_error {
                    1int
                } else {
                    0
                }
                &&& report.change.parsed == r.0.flows@.len()
                &&& report.change.matched == flows.len()
                &&& report.change.seq_gap == lost
            },
    {
        let parsed = parser::parse(decoder, buf);
        let report = self.collect(&parsed, filter, received_at);
        (parsed, report)
    }

    /// Takes out what has been counted in the window that ends, with the row for the health table,
    /// which every window has, an idle one too.
    ///
    /// `None` where the sum over a day is beyond what a counter can hold.
    pub fn flush(&mut self, stats: &Stats, now: Timestamp) -> (r: Option<FlushBatch>)
        requires
            old(self).wf(),
            now.valid(),
        ensures
            final(self).wf(),
            final(self).opts == old(self).opts,
            final(self).live == old(self).live,
            final(self).db == old(self).db,
            final(self).sequences == old(self).sequences,
            r is Some <==> aggregator::days_fit(old(self).aggregator@),
            r is None ==> *final(self) == *old(self),
            r matches Some(batch) ==> {
                &&& ledger::lists_all(
                    aggregator::bucket_rows(batch.buckets@),
                    aggregator::nonzero(old(self).aggregator@),
                )
                &&& ledger::lists_all(
                    aggregator::day_rows(batch.days@),
                    aggregator::day_totals(batch.buckets@),
                )
                &&& batch.health == old(self).health.row(*stats, now)
                &&& batch.health.bucket == Some(stats::minute(now))
                &&& batch.health.packets_received == old(self).health.packets_received
                &&& batch.health.flows_parsed == old(self).health.flows_parsed
                &&& batch.health.parse_failures == old(self).health.parse_failures
                &&& batch.health.seq_gap == old(self).health.seq_gap
                &&& batch.health.flows_matched == old(self).health.flows_matched
                &&& batch.health.clock_skew_min_ms == old(self).health.clock_skew_min_ms
                &&& batch.health.clock_skew_max_ms == old(self).health.clock_skew_max_ms
                &&& batch.health.clock_skew_last_ms == old(self).health.clock_skew_last_ms
                &&& batch.health.clock_skew_rejects == old(self).health.clock_skew_rejects
                &&& forall|i: int|
                    0 <= i < batch.buckets@.len() ==> ({
                        let row = #[trigger] batch.buckets@[i];
                        &&& old(self).aggregator@.contains_key(row.key)
                        &&& row.counters.intra_rx == old(self).aggregator@[row.key].intra_rx
                        &&& row.counters.intra_tx == old(self).aggregator@[row.key].intra_tx
                        &&& row.counters.ext_rx == old(self).aggregator@[row.key].ext_rx
                        &&& row.counters.ext_tx == old(self).aggregator@[row.key].ext_tx
                    })
                &&& forall|i: int|
                    0 <= i < batch.days@.len() ==> ({
                        let row = #[trigger] batch.days@[i];
                        let sum = aggregator::host_day_sum(batch.buckets@, row.day, row.addr);
                        &&& row.counters.intra_rx == sum.intra_rx
                        &&& row.counters.intra_tx == sum.intra_tx
                        &&& row.counters.ext_rx == sum.ext_rx
                        &&& row.counters.ext_tx == sum.ext_tx
                    })
                &&& final(self).aggregator@ == Map::<StatKey, Tally>::empty()
                &&& final(self).health == HealthAccumulator::empty(
                    stats.db_written,
                    stats.db_failed,
                )
            },
    {
        if !self.aggregator.can_drain() {
            return None;
        }
        let (buckets, days) = self.aggregator.drain();
        let health = self.health.take(stats, now);
        Some(FlushBatch { buckets, days, health })
    }
}

/// What to add to the totals when a batch has to be dropped.
pub fn dropped(batch: &FlushBatch) -> (r: Stats)
    ensures
        r == (Stats { stat_failed: batch.buckets@.len() as u64, ..Stats::zero() }),
{
    let mut change = Stats::new();
    change.stat_failed = batch.buckets.len() as u64;
    change
}

/// What to add to the totals when a row has to be dropped.
pub fn row_dropped() -> (r: Stats)
    ensures
        r == (Stats { db_failed: 1, ..Stats::zero() }),
{
    let mut change = Stats::new();
    change.db_failed = 1;
    change
}

// ── laws ────────────────────────────────────────────────────────────────────

/// A flow is counted once for each side that matches: under the sender as sent and under the
/// receiver as received, two times where both match. Nothing else changes.
pub proof fn each_matching_side_is_counted_once(
    m: Map<StatKey, Tally>,
    filter: Groups,
    received_at: Timestamp,
    flow: FlowRecord,
    db: DbSettings,
    key: StatKey,
)
    ensures
        ({
            let as_sender = if filter.src_matches(flow.src_addr) && key == src_key(
                received_at,
                flow,
                db,
            ) {
                src_gain(flow, db)
            } else {
                Tally::zero()
            };
            let as_receiver = if filter.dst_matches(flow.dst_addr) && key == dst_key(
                received_at,
                flow,
                db,
            ) {
                dst_gain(flow, db)
            } else {
                Tally::zero()
            };
            ledger::tally_at(with_flow(m, filter, received_at, flow, db), key) == ledger::tally_at(
                m,
                key,
            ).plus(as_sender).plus(as_receiver)
        }),
{
}

/// The bytes of a tally, whatever they count as.
pub open spec fn bytes_in(t: Tally) -> int {
    t.intra_rx + t.intra_tx + t.ext_rx + t.ext_tx
}

/// Every byte of a flow is counted once for each side that matches, inside the intranet or outside
/// it, and never both.
pub proof fn every_byte_is_counted(flow: FlowRecord, db: DbSettings)
    ensures
        bytes_in(src_gain(flow, db)) == bytes_of(flow, db),
        bytes_in(dst_gain(flow, db)) == bytes_of(flow, db),
        src_gain(flow, db).intra_tx == 0 || src_gain(flow, db).ext_tx == 0,
        dst_gain(flow, db).intra_rx == 0 || dst_gain(flow, db).ext_rx == 0,
{
}

/// Flows that do not match leave no trace: a datagram without a flow that matches changes no counter
/// and is neither printed nor shown nor stored.
pub proof fn flows_that_do_not_match_leave_no_trace(
    m: Map<StatKey, Tally>,
    opts: RunOptions,
    live: bool,
    filter: Groups,
    ports: Set<u16>,
    parsed: ParseResult,
    received_at: Timestamp,
    db: DbSettings,
)
    requires
        forall|i: int|
            0 <= i < parsed.flows@.len() ==> !is_match(filter, #[trigger] parsed.flows@[i]),
    ensures
        counters_after(m, parsed, filter, received_at, Some(db)) == m,
        printed(opts, filter, ports, matching(filter, parsed.flows@)).len() == 0,
        live_records(live, filter, matching(filter, parsed.flows@)).len() == 0,
        stored_rows(received_at, matching(filter, parsed.flows@), db).len() == 0,
{
    lemma_none_match(filter, parsed.flows@);
}

proof fn lemma_none_match(filter: Groups, flows: Seq<FlowRecord>)
    requires
        forall|i: int| 0 <= i < flows.len() ==> !is_match(filter, #[trigger] flows[i]),
    ensures
        matching(filter, flows).len() == 0,
    decreases flows.len(),
{
    if flows.len() > 0 {
        assert(flows.last() == flows[flows.len() - 1]);
        lemma_none_match(filter, flows.drop_last());
    }
}

/// However wrong the exporter's clock is, no flow is stored under a time that is further from the
/// time at which it came in than the threshold allows.
pub proof fn stored_times_stay_near(received_at: Timestamp, flow: FlowRecord, db: DbSettings)
    requires
        db.clock_skew_threshold_ms >= 0,
    ensures
        ({
            let off = time::millis_from_nanos(
                received_at.total_nanos() - stored_at(received_at, flow, db).total_nanos(),
            );
            -db.clock_skew_threshold_ms <= off <= db.clock_skew_threshold_ms
        }),
{
}

/// A window in which nothing was counted makes no row of statistics.
pub proof fn an_idle_window_has_no_statistics(batch: FlushBatch)
    requires
        ledger::lists_all(
            aggregator::bucket_rows(batch.buckets@),
            aggregator::nonzero(Map::<StatKey, Tally>::empty()),
        ),
        ledger::lists_all(
            aggregator::day_rows(batch.days@),
            aggregator::day_totals(batch.buckets@),
        ),
    ensures
        batch.buckets@.len() == 0,
        batch.days@.len() == 0,
{
    let none = aggregator::nonzero(Map::<StatKey, Tally>::empty());
    if batch.buckets@.len() > 0 {
        assert(none.contains_key(aggregator::bucket_rows(batch.buckets@)[0].0));
        assert(false);
    }
    if batch.days@.len() > 0 {
        assert(aggregator::day_totals(batch.buckets@).contains_key(
            aggregator::day_rows(batch.days@)[0].0,
        ));
        assert(false);
    }
}

/// Noting skews leaves the other counts as they are.
proof fn lemma_skews_keep_counts(
    window: HealthAccumulator,
    received_at: Timestamp,
    flows: Seq<FlowRecord>,
    db: Option<DbSettings>,
)
    ensures
        ({
            let after = with_matching(window, received_at, flows, db);
            &&& after.flows_parsed == window.flows_parsed
            &&& after.flows_matched == window.flows_matched
        }),
    decreases flows.len(),
{
    if flows.len() > 0 {
        lemma_skews_keep_counts(window, received_at, flows.drop_last(), db);
    }
}

/// A row says what the flow says, field by field, and the interval that is set. It is kept under the
/// flow's own end where that is, in whole milliseconds, no further from the time at which it came in
/// than the threshold, and under the time at which it came in otherwise.
pub proof fn a_row_says_what_the_flow_says(received_at: Timestamp, flow: FlowRecord, db: DbSettings)
    ensures
        ({
            let row = row_of(received_at, flow, db);
            let apart = received_at.secs * 1_000_000_000 + received_at.nanos - (flow.ts.secs
                * 1_000_000_000 + flow.ts.nanos);
            let millis = (if apart < 0 {
                -apart
            } else {
                apart
            }) / 1_000_000;
            &&& db.clock_skew_threshold_ms >= 0 ==> row.ts == if millis
                <= db.clock_skew_threshold_ms {
                flow.ts
            } else {
                received_at
            }
            &&& row.src_addr == flow.src_addr && row.dst_addr == flow.dst_addr
            &&& row.src_port == flow.src_port && row.dst_port == flow.dst_port
            &&& row.protocol == flow.protocol_number && row.tcp_flags == flow.tcp_flags
            &&& row.packets == flow.d_pkts && row.bytes == flow.d_octets
            &&& row.input == flow.input && row.output == flow.output && row.tos == flow.tos
            &&& row.sampling_interval == db.sampling_interval
        }),
{
}

/// The skew of a flow is the time from its end to when it came in, in milliseconds, any rest cut off
/// towards zero. It is too far where it is beyond the threshold, either way.
pub proof fn a_skew_is_cut_off_towards_zero(received_at: Timestamp, flow: FlowRecord, db: DbSettings)
    ensures
        ({
            let apart = received_at.secs * 1_000_000_000 + received_at.nanos - (flow.ts.secs
                * 1_000_000_000 + flow.ts.nanos);
            let skew = skew_of(received_at, flow);
            &&& apart >= 0 ==> skew * 1_000_000 <= apart < (skew + 1) * 1_000_000
            &&& apart < 0 ==> (skew - 1) * 1_000_000 < apart <= skew * 1_000_000
            &&& is_rejected(received_at, flow, db) <==> skew > db.clock_skew_threshold_ms || skew
                < -db.clock_skew_threshold_ms
        }),
{
}

/// Flows are gone through one after the other: those of some that match, and then those of others, are
/// those of all of them, and one alone is kept where a side of it matches.
pub proof fn flows_are_picked_in_order(
    filter: Groups,
    first: Seq<FlowRecord>,
    then: Seq<FlowRecord>,
    flow: FlowRecord,
)
    ensures
        matching(filter, first + then) == matching(filter, first) + matching(filter, then),
        filter.src_matches(flow.src_addr) || filter.dst_matches(flow.dst_addr) ==> matching(
            filter,
            seq![flow],
        ) == seq![flow],
        !filter.src_matches(flow.src_addr) && !filter.dst_matches(flow.dst_addr) ==> matching(
            filter,
            seq![flow],
        ).len() == 0,
    decreases then.len(),
{
    reveal_with_fuel(matching, 2);
    assert(seq![flow].drop_last() =~= Seq::empty());
    assert(matching(filter, Seq::empty()).push(flow) =~= seq![flow]);
    if then.len() > 0 {
        flows_are_picked_in_order(filter, first, then.drop_last(), flow);
        assert((first + then).drop_last() =~= first + then.drop_last());
        assert((first + then).last() == then.last());
        assert(matching(filter, first + then) =~= matching(filter, first) + matching(filter, then));
    } else {
        assert(first + then =~= first);
        assert(matching(filter, first) + matching(filter, then) =~= matching(filter, first));
    }
}

/// What a flow that matches leads to says what the flow says: each line, each record for the live
/// monitor and each row is for the flow in its place, and there are as many as there are flows.
pub proof fn what_is_shown_says_what_the_flow_says(
    opts: RunOptions,
    filter: Groups,
    ports: Set<u16>,
    received_at: Timestamp,
    flows: Seq<FlowRecord>,
    db: DbSettings,
    i: int,
)
    requires
        0 <= i < flows.len(),
    ensures
        ({
            let flow = flows[i];
            let record = live_records(true, filter, flows)[i];
            &&& live_records(true, filter, flows).len() == flows.len()
            &&& record.src_addr == flow.src_addr && record.dst_addr == flow.dst_addr
            &&& record.src_port == flow.src_port && record.dst_port == flow.dst_port
            &&& record.d_pkts == flow.d_pkts && record.d_octets == flow.d_octets
            &&& record.src_matched == filter.src_matches(flow.src_addr)
            &&& record.dst_matched == filter.dst_matches(flow.dst_addr)
            &&& shown(flow).src_addr == flow.src_addr && shown(flow).dst_addr == flow.dst_addr
            &&& shown(flow).src_port == flow.src_port && shown(flow).dst_port == flow.dst_port
            &&& shown(flow).d_pkts == flow.d_pkts && shown(flow).d_octets == flow.d_octets
            &&& opts.direct_print ==> printed(opts, filter, ports, flows).len() == flows.len()
                && printed(opts, filter, ports, flows)[i] == printer::flow_text(
                shown(flow),
                opts.color,
                filter.src_matches(flow.src_addr),
                filter.dst_matches(flow.dst_addr),
                ports,
            )
            &&& stored_rows(received_at, flows, db).len() == flows.len()
            &&& stored_rows(received_at, flows, db)[i] == row_of(received_at, flow, db)
        }),
        live_records(false, filter, flows).len() == 0,
        !opts.direct_print ==> printed(opts, filter, ports, flows).len() == 0,
{
}

/// Counting a flow, counter by counter. A host's bytes count as sent where it is the sender of the flow
/// and matches as one, inside where the receiver is inside; as received where it is the receiver and
/// matches as one, inside where the sender is inside. They go to the bucket of five minutes that the
/// stored time falls into, and no other counter changes.
pub proof fn a_flow_counts_by_side_and_boundary(
    m: Map<StatKey, Tally>,
    filter: Groups,
    received_at: Timestamp,
    flow: FlowRecord,
    db: DbSettings,
    key: StatKey,
)
    requires
        received_at.valid(),
        flow.ts.valid(),
    ensures
        ({
            let at = row_of(received_at, flow, db).ts;
            let here = key.bucket.nanos == 0 && key.bucket.secs as int % 300 == 0 && key.bucket.secs
                <= at.secs < key.bucket.secs + 300;
            let sends = here && key.addr == flow.src_addr && filter.src_matches(flow.src_addr);
            let receives = here && key.addr == flow.dst_addr && filter.dst_matches(flow.dst_addr);
            let to_inside = flow.dst_addr & db.intra.mask == db.intra.network;
            let from_inside = flow.src_addr & db.intra.mask == db.intra.network;
            let bytes = flow.d_octets * db.sampling_interval;
            let before = ledger::tally_at(m, key);
            let after = ledger::tally_at(with_flow(m, filter, received_at, flow, db), key);
            &&& after.intra_tx == before.intra_tx + if sends && to_inside {
                bytes
            } else {
                0
            }
            &&& after.ext_tx == before.ext_tx + if sends && !to_inside {
                bytes
            } else {
                0
            }
            &&& after.intra_rx == before.intra_rx + if receives && from_inside {
                bytes
            } else {
                0
            }
            &&& after.ext_rx == before.ext_rx + if receives && !from_inside {
                bytes
            } else {
                0
            }
            &&& with_flow(m, filter, received_at, flow, db).contains_key(key) == (m.contains_key(key)
                || sends || receives)
        }),
{
    let at = row_of(received_at, flow, db).ts;
    let start = aggregator::bucket(at);
    assert(start.nanos == 0 && start.secs as int % 300 == 0 && start.secs <= at.secs < start.secs + 300);
}

/// Flows are counted one after the other: some and then others is all of them, and none at all changes
/// nothing.
pub proof fn flows_are_counted_in_order(
    m: Map<StatKey, Tally>,
    filter: Groups,
    received_at: Timestamp,
    first: Seq<FlowRecord>,
    then: Seq<FlowRecord>,
    flow: FlowRecord,
    db: DbSettings,
)
    ensures
        with_flows(m, filter, received_at, first + then, db) == with_flows(
            with_flows(m, filter, received_at, first, db),
            filter,
            received_at,
            then,
            db,
        ),
        with_flows(m, filter, received_at, seq![flow], db) == with_flow(
            m,
            filter,
            received_at,
            flow,
            db,
        ),
        with_flows(m, filter, received_at, Seq::empty(), db) == m,
    decreases then.len(),
{
    reveal_with_fuel(with_flows, 2);
    assert(seq![flow].drop_last() =~= Seq::empty());
    if then.len() > 0 {
        flows_are_counted_in_order(m, filter, received_at, first, then.drop_last(), flow, db);
        assert((first + then).drop_last() =~= first + then.drop_last());
        assert((first + then).last() == then.last());
    } else {
        assert(first + then =~= first);
    }
}

/// Losses add up over packets: those before some, and then those before others, are those before all of
/// them. Before one packet, the records between the number expected and its own are lost, as long as
/// they are fewer than a million, where numbers start again at zero after 2^32 - 1.
pub proof fn losses_add_up(
    expected: Option<u32>,
    first: Seq<(u32, u16)>,
    then: Seq<(u32, u16)>,
    number: u32,
    sequence: u32,
    count: u16,
)
    ensures
        lost_in(expected, first + then) == lost_in(expected, first) + lost_in(
            expected_in(expected, first),
            then,
        ),
        expected_in(expected, first + then) == expected_in(expected_in(expected, first), then),
        lost_in(expected, Seq::empty()) == 0,
        expected_in(expected, Seq::empty()) == expected,
        lost_in(None, seq![(sequence, count)]) == 0,
        lost_in(Some(number), seq![(sequence, count)]) == ({
            let jump = (sequence - number) % 0x1_0000_0000;
            if jump < 1_000_000 {
                jump
            } else {
                0
            }
        }),
        expected_in(expected, seq![(sequence, count)]) == Some(
            ((sequence + count) % 0x1_0000_0000) as u32,
        ),
    decreases then.len(),
{
    reveal_with_fuel(lost_in, 2);
    assert(seq![(sequence, count)].drop_last() =~= Seq::empty());
    if then.len() > 0 {
        losses_add_up(expected, first, then.drop_last(), number, sequence, count);
        assert((first + then).drop_last() =~= first + then.drop_last());
        assert((first + then).last() == then.last());
    } else {
        assert(first + then =~= first);
    }
}

/// What a datagram adds to a window and to the totals, count by count: itself, an error where it has one,
/// what was lost before it, its flows, and those of them that match. Rows are counted elsewhere.
pub proof fn a_datagram_counts_what_it_holds(
    m: Map<StatKey, Tally>,
    window: HealthAccumulator,
    expected: Option<u32>,
    parsed: ParseResult,
    filter: Groups,
    received_at: Timestamp,
    db: Option<DbSettings>,
)
    requires
        window.wf(),
        datagram_fits(m, window, expected, parsed, filter, received_at, db),
    ensures
        ({
            let after = window_after(window, expected, parsed, filter, received_at, db);
            let change = change_of(expected, parsed, filter);
            let lost = lost_in(expected, parsed.sequences@);
            let flows = matching(filter, parsed.flows@);
            let errors = if parsed.has_error {
                1int
            } else {
                0
            };
            &&& after.packets_received == window.packets_received + 1
            &&& after.parse_failures == window.parse_failures + errors
            &&& after.seq_gap == window.seq_gap + lost
            &&& after.flows_parsed == window.flows_parsed + parsed.flows@.len()
            &&& after.flows_matched == window.flows_matched + flows.len()
            &&& after.prev_db_written == window.prev_db_written
            &&& after.prev_db_failed == window.prev_db_failed
            &&& db matches Some(set) ==> {
                let noted = with_skews(window, received_at, flows, set);
                &&& after.clock_skew_min_ms == noted.clock_skew_min_ms
                &&& after.clock_skew_max_ms == noted.clock_skew_max_ms
                &&& after.clock_skew_last_ms == noted.clock_skew_last_ms
                &&& after.clock_skew_rejects == noted.clock_skew_rejects
            }
            &&& db is None ==> {
                &&& after.clock_skew_min_ms == window.clock_skew_min_ms
                &&& after.clock_skew_max_ms == window.clock_skew_max_ms
                &&& after.clock_skew_last_ms == window.clock_skew_last_ms
                &&& after.clock_skew_rejects == window.clock_skew_rejects
            }
            &&& change.received == 1 && change.failed == errors
            &&& change.parsed == parsed.flows@.len() && change.matched == flows.len()
            &&& change.seq_gap == lost
            &&& change.db_written == 0 && change.db_failed == 0
            &&& change.stat_written == 0 && change.stat_failed == 0
        }),
{
    let lost = lost_in(expected, parsed.sequences@);
    lemma_losses_are_some(expected, parsed.sequences@);
    lemma_matching_is_some(filter, parsed.flows@);
    lemma_skews_keep_all_counts(
        with_packet(window, parsed.has_error, lost),
        received_at,
        matching(filter, parsed.flows@),
        db,
    );
    if let Some(set) = db {
        lemma_skews_alike(
            window,
            with_packet(window, parsed.has_error, lost),
            received_at,
            matching(filter, parsed.flows@),
            set,
        );
    }
}

/// What skews make of the skews noted so far does not depend on the other counts.
proof fn lemma_skews_alike(
    a: HealthAccumulator,
    b: HealthAccumulator,
    received_at: Timestamp,
    flows: Seq<FlowRecord>,
    db: DbSettings,
)
    requires
        a.clock_skew_min_ms == b.clock_skew_min_ms,
        a.clock_skew_max_ms == b.clock_skew_max_ms,
        a.clock_skew_last_ms == b.clock_skew_last_ms,
        a.clock_skew_rejects == b.clock_skew_rejects,
    ensures
        ({
            let x = with_skews(a, received_at, flows, db);
            let y = with_skews(b, received_at, flows, db);
            &&& x.clock_skew_min_ms == y.clock_skew_min_ms
            &&& x.clock_skew_max_ms == y.clock_skew_max_ms
            &&& x.clock_skew_last_ms == y.clock_skew_last_ms
            &&& x.clock_skew_rejects == y.clock_skew_rejects
        }),
    decreases flows.len(),
{
    if flows.len() > 0 {
        lemma_skews_alike(a, b, received_at, flows.drop_last(), db);
    }
}

proof fn lemma_losses_are_some(expected: Option<u32>, sequences: Seq<(u32, u16)>)
    ensures
        lost_in(expected, sequences) >= 0,
    decreases sequences.len(),
{
    if sequences.len() > 0 {
        lemma_losses_are_some(expected, sequences.drop_last());
    }
}

proof fn lemma_skews_keep_all_counts(
    window: HealthAccumulator,
    received_at: Timestamp,
    flows: Seq<FlowRecord>,
    db: Option<DbSettings>,
)
    ensures
        ({
            let after = with_matching(window, received_at, flows, db);
            &&& after.packets_received == window.packets_received
            &&& after.parse_failures == window.parse_failures
            &&& after.seq_gap == window.seq_gap
            &&& after.flows_parsed == window.flows_parsed
            &&& after.flows_matched == window.flows_matched
            &&& after.prev_db_written == window.prev_db_written
            &&& after.prev_db_failed == window.prev_db_failed
        }),
    decreases flows.len(),
{
    if flows.len() > 0 {
        lemma_skews_keep_all_counts(window, received_at, flows.drop_last(), db);
    }
}

/// The skews of flows are noted one after the other: those of some, and then those of others, are those
/// of all of them, and each is noted with whether it is too far.
pub proof fn skews_are_noted_in_order(
    window: HealthAccumulator,
    received_at: Timestamp,
    flows: Seq<FlowRecord>,
    db: DbSettings,
)
    ensures
        with_skews(window, received_at, flows, db) == stats::with_all_skews(
            window,
            Seq::new(
                flows.len(),
                |i: int|
                    (
                        skew_of(received_at, flows[i]) as i64,
                        is_rejected(received_at, flows[i], db),
                    ),
            ),
        ),
    decreases flows.len(),
{
    let skews = Seq::new(
        flows.len(),
        |i: int|
            (skew_of(received_at, flows[i]) as i64, is_rejected(received_at, flows[i], db)),
    );
    if flows.len() > 0 {
        let less = flows.drop_last();
        skews_are_noted_in_order(window, received_at, less, db);
        assert(skews.drop_last() =~= Seq::new(
            less.len(),
            |i: int| (skew_of(received_at, less[i]) as i64, is_rejected(received_at, less[i], db)),
        ));
    }
}

/// Where nothing is stored, a datagram is refused only where one of the five counts that it adds to
/// would go beyond what a counter holds.
pub proof fn only_full_counters_refuse_a_datagram(
    m: Map<StatKey, Tally>,
    window: HealthAccumulator,
    expected: Option<u32>,
    parsed: ParseResult,
    filter: Groups,
    received_at: Timestamp,
)
    ensures
        datagram_fits(m, window, expected, parsed, filter, received_at, None) <==> {
            &&& window.packets_received + 1 <= 0x7fff_ffff_ffff_ffff
            &&& parsed.has_error ==> window.parse_failures + 1 <= 0x7fff_ffff_ffff_ffff
            &&& window.seq_gap + lost_in(expected, parsed.sequences@) <= 0x7fff_ffff_ffff_ffff
            &&& window.flows_parsed + parsed.flows@.len() <= 0x7fff_ffff_ffff_ffff
            &&& window.flows_matched + matching(filter, parsed.flows@).len() <= 0x7fff_ffff_ffff_ffff
        },
{
}

/// Where something is stored and the counters hold what they hold, storing one more flow is refused only
/// where its skew is too far and no more such can be counted, or where a counter that it adds to would
/// go beyond what a counter holds.
pub proof fn only_full_counters_refuse_a_flow(
    m: Map<StatKey, Tally>,
    window: HealthAccumulator,
    filter: Groups,
    received_at: Timestamp,
    flows: Seq<FlowRecord>,
    flow: FlowRecord,
    db: DbSettings,
)
    requires
        ledger::tally_at(
            with_flows(m, filter, received_at, flows, db),
            src_key(received_at, flow, db),
        ).fits(),
        ledger::tally_at(
            with_flows(m, filter, received_at, flows, db),
            dst_key(received_at, flow, db),
        ).fits(),
    ensures
        ({
            let counted = with_flows(m, filter, received_at, flows, db);
            let after = with_flow(counted, filter, received_at, flow, db);
            let sender = ledger::tally_at(after, src_key(received_at, flow, db));
            let receiver = ledger::tally_at(after, dst_key(received_at, flow, db));
            storing_fits(m, window, filter, received_at, flows.push(flow), db) <==> {
                &&& storing_fits(m, window, filter, received_at, flows, db)
                &&& is_rejected(received_at, flow, db) ==> with_skews(
                    window,
                    received_at,
                    flows,
                    db,
                ).clock_skew_rejects + 1 <= 0x7fff_ffff_ffff_ffff
                &&& filter.src_matches(flow.src_addr) ==> aggregator::is_countable(sender.intra_tx)
                    && aggregator::is_countable(sender.ext_tx)
                &&& filter.dst_matches(flow.dst_addr) ==> aggregator::is_countable(receiver.intra_rx)
                    && aggregator::is_countable(receiver.ext_rx)
            }
        }),
        storing_fits(m, window, filter, received_at, Seq::empty(), db),
{
    assert(flows.push(flow).drop_last() =~= flows);
    assert(flows.push(flow).last() == flow);
}

} // verus!
