//! Counting what the collector does, and noticing what never arrived.

use vstd::prelude::*;

use crate::db::HealthRow;
use crate::time::{self, Timestamp};

verus! {

/// Totals since the start, or what is to be added to them.
#[derive(Clone, Copy, Debug, PartialEq, Eq, Structural)]
pub struct Stats {
    /// UDP packets received.
    pub received: u64,
    /// UDP packets with something in them that could not be read.
    pub failed: u64,
    /// Flow records read out of the packets.
    pub parsed: u64,
    /// Flow records with a watched sender or receiver.
    pub matched: u64,
    /// Flow records that are presumed lost on the way.
    pub seq_gap: u64,
    pub db_written: u64,
    pub db_failed: u64,
    pub stat_written: u64,
    pub stat_failed: u64,
}

impl Stats {
    /// Nothing counted.
    pub open spec fn zero() -> Stats {
        Stats {
            received: 0,
            failed: 0,
            parsed: 0,
            matched: 0,
            seq_gap: 0,
            db_written: 0,
            db_failed: 0,
            stat_written: 0,
            stat_failed: 0,
        }
    }

    /// Nothing counted.
    pub fn new() -> (r: Self)
        ensures
            r == Stats::zero(),
            r.received == 0 && r.failed == 0 && r.parsed == 0 && r.matched == 0 && r.seq_gap == 0,
            r.db_written == 0 && r.db_failed == 0 && r.stat_written == 0 && r.stat_failed == 0,
    {
        Stats {
            received: 0,
            failed: 0,
            parsed: 0,
            matched: 0,
            seq_gap: 0,
            db_written: 0,
            db_failed: 0,
            stat_written: 0,
            stat_failed: 0,
        }
    }
}

/// The totals at one moment.
#[derive(Clone, Copy, Debug, PartialEq, Eq, Structural)]
pub struct Snapshot {
    pub received: u64,
    pub failed: u64,
    pub parsed: u64,
    pub matched: u64,
    pub seq_gap: u64,
    pub db_written: u64,
    pub db_failed: u64,
    pub stat_failed: u64,
}

impl Snapshot {
    /// The totals as they are.
    pub fn take(stats: &Stats) -> (r: Self)
        ensures
            r == (Snapshot {
                received: stats.received,
                failed: stats.failed,
                parsed: stats.parsed,
                matched: stats.matched,
                seq_gap: stats.seq_gap,
                db_written: stats.db_written,
                db_failed: stats.db_failed,
                stat_failed: stats.stat_failed,
            }),
    {
        Snapshot {
            received: stats.received,
            failed: stats.failed,
            parsed: stats.parsed,
            matched: stats.matched,
            seq_gap: stats.seq_gap,
            db_written: stats.db_written,
            db_failed: stats.db_failed,
            stat_failed: stats.stat_failed,
        }
    }

    /// Whether no total is below what it was.
    pub open spec fn is_later_than(self, prev: Snapshot) -> bool {
        &&& self.received >= prev.received
        &&& self.failed >= prev.failed
        &&& self.parsed >= prev.parsed
        &&& self.matched >= prev.matched
        &&& self.seq_gap >= prev.seq_gap
        &&& self.db_written >= prev.db_written
        &&& self.db_failed >= prev.db_failed
        &&& self.stat_failed >= prev.stat_failed
    }

    /// Whether no total is below what it was.
    pub fn follows(&self, prev: &Snapshot) -> (r: bool)
        ensures
            r == self.is_later_than(*prev),
            r == (self.received >= prev.received && self.failed >= prev.failed && self.parsed
                >= prev.parsed && self.matched >= prev.matched && self.seq_gap >= prev.seq_gap
                && self.db_written >= prev.db_written && self.db_failed >= prev.db_failed
                && self.stat_failed >= prev.stat_failed),
    {
        self.received >= prev.received && self.failed >= prev.failed && self.parsed >= prev.parsed
            && self.matched >= prev.matched && self.seq_gap >= prev.seq_gap && self.db_written
            >= prev.db_written && self.db_failed >= prev.db_failed && self.stat_failed
            >= prev.stat_failed
    }

    /// How much each total has grown.
    pub fn since(&self, prev: &Snapshot) -> (r: Snapshot)
        requires
            self.is_later_than(*prev),
        ensures
            r.received == self.received - prev.received,
            r.failed == self.failed - prev.failed,
            r.parsed == self.parsed - prev.parsed,
            r.matched == self.matched - prev.matched,
            r.seq_gap == self.seq_gap - prev.seq_gap,
            r.db_written == self.db_written - prev.db_written,
            r.db_failed == self.db_failed - prev.db_failed,
            r.stat_failed == self.stat_failed - prev.stat_failed,
    {
        Snapshot {
            received: self.received - prev.received,
            failed: self.failed - prev.failed,
            parsed: self.parsed - prev.parsed,
            matched: self.matched - prev.matched,
            seq_gap: self.seq_gap - prev.seq_gap,
            db_written: self.db_written - prev.db_written,
            db_failed: self.db_failed - prev.db_failed,
            stat_failed: self.stat_failed - prev.stat_failed,
        }
    }

    /// Whether something went wrong: only then is a report made.
    pub fn shows_trouble(&self) -> (r: bool)
        ensures
            r == (self.failed > 0 || self.seq_gap > 0 || self.db_failed > 0 || self.stat_failed > 0),
    {
        self.failed > 0 || self.seq_gap > 0 || self.db_failed > 0 || self.stat_failed > 0
    }
}

// ── lost records ────────────────────────────────────────────────────────────

/// From this many records on, a jump is a restart of the exporter or a reordering, and no loss.
pub const SANE_GAP_LIMIT: u32 = 1_000_000;

/// Notices flow records that were lost on the way.
///
/// An exporter numbers its records, and each packet gives the number of its first. A number that is
/// ahead of the one expected shows how many records never arrived.
pub struct SequenceTracker {
    pub next_expected: Option<u32>,
}

/// How far a number is ahead of another, where numbers start again at zero after 2^32 - 1.
pub open spec fn ahead(number: u32, of: u32) -> int {
    (number - of) % 0x1_0000_0000
}

/// How many records are presumed lost before a packet.
pub open spec fn lost_before(expected: Option<u32>, sequence: u32) -> int {
    match expected {
        Some(number) => if ahead(sequence, number) < SANE_GAP_LIMIT {
            ahead(sequence, number)
        } else {
            0
        },
        None => 0,
    }
}

/// The number that the packet after one should start with.
pub open spec fn expected_after(sequence: u32, count: u16) -> u32 {
    ((sequence + count) % 0x1_0000_0000) as u32
}

impl Default for SequenceTracker {
    fn default() -> (r: Self)
        ensures
            r.next_expected is None,
    {
        SequenceTracker { next_expected: None }
    }
}

impl SequenceTracker {
    /// Takes note of one packet and tells how many records are presumed lost before it.
    pub fn observe(&mut self, sequence: u32, count: u16) -> (r: u64)
        ensures
            r == lost_before(old(self).next_expected, sequence),
            final(self).next_expected == Some(expected_after(sequence, count)),
            r < SANE_GAP_LIMIT,
            old(self).next_expected is None ==> r == 0,
            old(self).next_expected matches Some(number) ==> {
                let jump = (sequence - number) % 0x1_0000_0000;
                r == if jump < 1_000_000 {
                    jump
                } else {
                    0
                }
            },
            final(self).next_expected matches Some(number) && number == (sequence + count)
                % 0x1_0000_0000,
    {
        let gap: u64 = match self.next_expected {
            Some(expected) => {
                let diff: u32 = sequence.wrapping_sub(expected);
                assert(diff == ahead(sequence, expected));
                if diff > 0 && diff < SANE_GAP_LIMIT {
                    diff as u64
                } else {
                    0
                }
            },
            None => 0,
        };
        self.next_expected = Some(sequence.wrapping_add(count as u32));
        gap
    }
}

/// A packet that starts where the one before it ended shows no loss, across the wrap to zero too.
pub proof fn contiguous_packets_show_no_loss(sequence: u32, count: u16)
    ensures
        lost_before(Some(expected_after(sequence, count)), expected_after(sequence, count)) == 0,
{
}

/// A packet that starts some records after the end of the one before it shows just those as lost,
/// across the wrap to zero too, as long as they are fewer than the limit.
pub proof fn a_jump_shows_the_missing_records(sequence: u32, count: u16, missing: u32)
    requires
        missing < SANE_GAP_LIMIT,
    ensures
        lost_before(
            Some(expected_after(sequence, count)),
            ((sequence + count + missing) % 0x1_0000_0000) as u32,
        ) == missing,
{
}

/// A packet whose number is behind the one expected, by no more than the numbers that the limit
/// leaves, shows no loss: it came late, or the exporter started again.
pub proof fn a_step_back_shows_no_loss(expected: u32, back: u32)
    requires
        0 < back <= 0x1_0000_0000 - SANE_GAP_LIMIT,
    ensures
        lost_before(Some(expected), ((expected - back) % 0x1_0000_0000) as u32) == 0,
{
}

// ── health ──────────────────────────────────────────────────────────────────

/// What one window of the health table holds, as it comes in.
#[derive(Clone, Copy, Debug, PartialEq, Eq, Structural)]
pub struct HealthAccumulator {
    pub packets_received: i64,
    pub flows_parsed: i64,
    pub parse_failures: i64,
    pub seq_gap: i64,
    pub flows_matched: i64,
    pub clock_skew_min_ms: Option<i64>,
    pub clock_skew_max_ms: Option<i64>,
    pub clock_skew_last_ms: Option<i64>,
    pub clock_skew_rejects: i64,
    pub prev_db_written: u64,
    pub prev_db_failed: u64,
}

impl HealthAccumulator {
    /// A window with nothing in it, where so many rows had been written and lost before it.
    pub open spec fn empty(db_written: u64, db_failed: u64) -> Self {
        HealthAccumulator {
            packets_received: 0,
            flows_parsed: 0,
            parse_failures: 0,
            seq_gap: 0,
            flows_matched: 0,
            clock_skew_min_ms: None,
            clock_skew_max_ms: None,
            clock_skew_last_ms: None,
            clock_skew_rejects: 0,
            prev_db_written: db_written,
            prev_db_failed: db_failed,
        }
    }

    /// No count is below zero.
    pub open spec fn wf(self) -> bool {
        &&& self.packets_received >= 0
        &&& self.flows_parsed >= 0
        &&& self.parse_failures >= 0
        &&& self.seq_gap >= 0
        &&& self.flows_matched >= 0
        &&& self.clock_skew_rejects >= 0
    }

    /// Either no skew has been seen, or the last one lies between the least and the greatest.
    pub open spec fn skews_in_order(self) -> bool {
        match (self.clock_skew_min_ms, self.clock_skew_last_ms, self.clock_skew_max_ms) {
            (None, None, None) => true,
            (Some(least), Some(last), Some(most)) => least <= last <= most,
            _ => false,
        }
    }

    /// An empty window.
    pub fn new(stats: &Stats) -> (r: Self)
        ensures
            r == HealthAccumulator::empty(stats.db_written, stats.db_failed),
            r.packets_received == 0 && r.flows_parsed == 0 && r.parse_failures == 0 && r.seq_gap == 0,
            r.flows_matched == 0 && r.clock_skew_rejects == 0,
            r.clock_skew_min_ms is None && r.clock_skew_max_ms is None,
            r.clock_skew_last_ms is None,
            r.prev_db_written == stats.db_written && r.prev_db_failed == stats.db_failed,
    {
        HealthAccumulator {
            packets_received: 0,
            flows_parsed: 0,
            parse_failures: 0,
            seq_gap: 0,
            flows_matched: 0,
            clock_skew_min_ms: None,
            clock_skew_max_ms: None,
            clock_skew_last_ms: None,
            clock_skew_rejects: 0,
            prev_db_written: stats.db_written,
            prev_db_failed: stats.db_failed,
        }
    }

    /// One more packet.
    pub fn packet(&mut self, parse_failed: bool)
        requires
            old(self).packets_received < i64::MAX,
            parse_failed ==> old(self).parse_failures < i64::MAX,
        ensures
            *final(self) == (HealthAccumulator {
                packets_received: (old(self).packets_received + 1) as i64,
                parse_failures: (old(self).parse_failures + if parse_failed { 1int } else { 0 }) as i64,
                ..*old(self)
            }),
    {
        self.packets_received = self.packets_received + 1;
        if parse_failed {
            self.parse_failures = self.parse_failures + 1;
        }
    }

    /// More flows, of which some matched.
    pub fn flows(&mut self, parsed: usize, matched: usize)
        requires
            parsed <= i64::MAX,
            matched <= i64::MAX,
            old(self).flows_parsed + parsed <= i64::MAX,
            old(self).flows_matched + matched <= i64::MAX,
        ensures
            *final(self) == (HealthAccumulator {
                flows_parsed: (old(self).flows_parsed + parsed) as i64,
                flows_matched: (old(self).flows_matched + matched) as i64,
                ..*old(self)
            }),
    {
        self.flows_parsed = self.flows_parsed + parsed as i64;
        self.flows_matched = self.flows_matched + matched as i64;
    }

    /// More records lost on the way.
    pub fn lost(&mut self, records: u64)
        requires
            records <= i64::MAX,
            old(self).seq_gap + records <= i64::MAX,
        ensures
            *final(self) == (HealthAccumulator {
                seq_gap: (old(self).seq_gap + records) as i64,
                ..*old(self)
            }),
    {
        self.seq_gap = self.seq_gap + records as i64;
    }

    /// How far the exporter's clock was behind ours for one flow, and whether that was too far.
    pub fn clock_skew(&mut self, skew_ms: i64, rejected: bool)
        requires
            rejected ==> old(self).clock_skew_rejects < i64::MAX,
        ensures
            *final(self) == old(self).with_skew(skew_ms, rejected),
            final(self).clock_skew_last_ms == Some(skew_ms),
            final(self).clock_skew_min_ms matches Some(least) && least <= skew_ms && (
            old(self).clock_skew_min_ms == Some(least) || least == skew_ms),
            old(self).clock_skew_min_ms matches Some(before) ==> final(self).clock_skew_min_ms->0
                <= before,
            final(self).clock_skew_max_ms matches Some(most) && most >= skew_ms && (
            old(self).clock_skew_max_ms == Some(most) || most == skew_ms),
            old(self).clock_skew_max_ms matches Some(before) ==> final(self).clock_skew_max_ms->0
                >= before,
            final(self).clock_skew_rejects == old(self).clock_skew_rejects + if rejected {
                1int
            } else {
                0
            },
            final(self).packets_received == old(self).packets_received,
            final(self).parse_failures == old(self).parse_failures,
            final(self).flows_parsed == old(self).flows_parsed,
            final(self).flows_matched == old(self).flows_matched,
            final(self).seq_gap == old(self).seq_gap,
            final(self).prev_db_written == old(self).prev_db_written,
            final(self).prev_db_failed == old(self).prev_db_failed,
    {
        self.clock_skew_last_ms = Some(skew_ms);
        self.clock_skew_min_ms = Some(
            match self.clock_skew_min_ms {
                Some(least) => if least < skew_ms {
                    least
                } else {
                    skew_ms
                },
                None => skew_ms,
            },
        );
        self.clock_skew_max_ms = Some(
            match self.clock_skew_max_ms {
                Some(most) => if most > skew_ms {
                    most
                } else {
                    skew_ms
                },
                None => skew_ms,
            },
        );
        if rejected {
            self.clock_skew_rejects = self.clock_skew_rejects + 1;
        }
    }

    /// With one more skew: the last one, the least and the greatest so far, and the count of those
    /// that were too far off.
    pub open spec fn with_skew(self, skew_ms: i64, rejected: bool) -> Self {
        HealthAccumulator {
            clock_skew_last_ms: Some(skew_ms),
            clock_skew_min_ms: Some(
                match self.clock_skew_min_ms {
                    Some(least) => if least < skew_ms {
                        least
                    } else {
                        skew_ms
                    },
                    None => skew_ms,
                },
            ),
            clock_skew_max_ms: Some(
                match self.clock_skew_max_ms {
                    Some(most) => if most > skew_ms {
                        most
                    } else {
                        skew_ms
                    },
                    None => skew_ms,
                },
            ),
            clock_skew_rejects: (self.clock_skew_rejects + if rejected { 1int } else { 0 }) as i64,
            ..self
        }
    }

    /// The row for this window; the next window starts empty.
    pub fn take(&mut self, stats: &Stats, now: Timestamp) -> (r: HealthRow)
        requires
            now.valid(),
        ensures
            r == old(self).row(*stats, now),
            *final(self) == HealthAccumulator::empty(stats.db_written, stats.db_failed),
            r.bucket matches Some(bucket) && bucket.nanos == 0 && bucket.secs as int % 60 == 0
                && bucket.secs <= now.secs < bucket.secs + 60,
            r.packets_received == old(self).packets_received,
            r.flows_parsed == old(self).flows_parsed,
            r.parse_failures == old(self).parse_failures,
            r.seq_gap == old(self).seq_gap,
            r.flows_matched == old(self).flows_matched,
            old(self).prev_db_written <= stats.db_written <= old(self).prev_db_written + i64::MAX
                ==> r.rows_written == stats.db_written - old(self).prev_db_written,
            stats.db_written < old(self).prev_db_written ==> r.rows_written == 0,
            old(self).prev_db_failed <= stats.db_failed <= old(self).prev_db_failed + i64::MAX
                ==> r.db_failures == stats.db_failed - old(self).prev_db_failed,
            stats.db_failed < old(self).prev_db_failed ==> r.db_failures == 0,
            r.clock_skew_min_ms == old(self).clock_skew_min_ms,
            r.clock_skew_max_ms == old(self).clock_skew_max_ms,
            r.clock_skew_last_ms == old(self).clock_skew_last_ms,
            r.clock_skew_rejects == old(self).clock_skew_rejects,
            final(self).packets_received == 0 && final(self).flows_parsed == 0,
            final(self).parse_failures == 0 && final(self).seq_gap == 0,
            final(self).flows_matched == 0 && final(self).clock_skew_rejects == 0,
            final(self).clock_skew_min_ms is None && final(self).clock_skew_max_ms is None,
            final(self).clock_skew_last_ms is None,
            final(self).prev_db_written == stats.db_written,
            final(self).prev_db_failed == stats.db_failed,
    {
        let row = HealthRow {
            bucket: Some(floor_to_minute(now)),
            packets_received: self.packets_received,
            flows_parsed: self.flows_parsed,
            parse_failures: self.parse_failures,
            seq_gap: self.seq_gap,
            flows_matched: self.flows_matched,
            rows_written: stats.db_written.saturating_sub(self.prev_db_written) as i64,
            db_failures: stats.db_failed.saturating_sub(self.prev_db_failed) as i64,
            clock_skew_min_ms: self.clock_skew_min_ms,
            clock_skew_max_ms: self.clock_skew_max_ms,
            clock_skew_last_ms: self.clock_skew_last_ms,
            clock_skew_rejects: self.clock_skew_rejects,
        };
        *self = HealthAccumulator::new(stats);
        row
    }

    /// The row for this window.
    pub open spec fn row(self, stats: Stats, now: Timestamp) -> HealthRow {
        HealthRow {
            bucket: Some(minute(now)),
            packets_received: self.packets_received,
            flows_parsed: self.flows_parsed,
            parse_failures: self.parse_failures,
            seq_gap: self.seq_gap,
            flows_matched: self.flows_matched,
            rows_written: grown(stats.db_written, self.prev_db_written) as i64,
            db_failures: grown(stats.db_failed, self.prev_db_failed) as i64,
            clock_skew_min_ms: self.clock_skew_min_ms,
            clock_skew_max_ms: self.clock_skew_max_ms,
            clock_skew_last_ms: self.clock_skew_last_ms,
            clock_skew_rejects: self.clock_skew_rejects,
        }
    }
}

/// The last skew lies between the least and the greatest, from the empty window on.
pub proof fn skews_stay_in_order(
    window: HealthAccumulator,
    skew_ms: i64,
    rejected: bool,
    db_written: u64,
    db_failed: u64,
)
    ensures
        HealthAccumulator::empty(db_written, db_failed).skews_in_order(),
        window.skews_in_order() ==> window.with_skew(skew_ms, rejected).skews_in_order(),
{
}

/// A window once skews have been noted one after the other, each with whether it was too far.
pub open spec fn with_all_skews(window: HealthAccumulator, skews: Seq<(i64, bool)>) -> HealthAccumulator
    decreases skews.len(),
{
    if skews.len() == 0 {
        window
    } else {
        with_all_skews(window, skews.drop_last()).with_skew(skews.last().0, skews.last().1)
    }
}

/// How many skews were too far.
pub open spec fn rejected_among(skews: Seq<(i64, bool)>) -> nat
    decreases skews.len(),
{
    if skews.len() == 0 {
        0
    } else {
        rejected_among(skews.drop_last()) + if skews.last().1 {
            1nat
        } else {
            0
        }
    }
}

/// Over all skews of a window, the last one is the last noted, the least is one of them and none is
/// below it, the greatest is one of them and none is above it; those that were too far are counted,
/// as far as a counter goes, and nothing else changes.
pub proof fn skews_are_summed_up(window: HealthAccumulator, skews: Seq<(i64, bool)>)
    requires
        window.clock_skew_min_ms is None,
        window.clock_skew_max_ms is None,
        skews.len() > 0,
        0 <= window.clock_skew_rejects,
        window.clock_skew_rejects + rejected_among(skews) <= i64::MAX,
    ensures
        ({
            let after = with_all_skews(window, skews);
            &&& after.clock_skew_last_ms == Some(skews.last().0)
            &&& after.clock_skew_min_ms matches Some(least) && {
                &&& exists|i: int| 0 <= i < skews.len() && (#[trigger] skews[i]).0 == least
                &&& forall|i: int| 0 <= i < skews.len() ==> least <= (#[trigger] skews[i]).0
            }
            &&& after.clock_skew_max_ms matches Some(most) && {
                &&& exists|i: int| 0 <= i < skews.len() && (#[trigger] skews[i]).0 == most
                &&& forall|i: int| 0 <= i < skews.len() ==> (#[trigger] skews[i]).0 <= most
            }
            &&& after.clock_skew_rejects == window.clock_skew_rejects + rejected_among(skews)
            &&& after == HealthAccumulator {
                clock_skew_last_ms: after.clock_skew_last_ms,
                clock_skew_min_ms: after.clock_skew_min_ms,
                clock_skew_max_ms: after.clock_skew_max_ms,
                clock_skew_rejects: after.clock_skew_rejects,
                ..window
            }
        }),
    decreases skews.len(),
{
    let less = skews.drop_last();
    let last = skews.len() - 1;
    assert(skews[last] == skews.last());
    if less.len() > 0 {
        skews_are_summed_up(window, less);
        let before = with_all_skews(window, less);
        let least = before.clock_skew_min_ms->0;
        let most = before.clock_skew_max_ms->0;
        let i = choose|i: int| 0 <= i < less.len() && (#[trigger] less[i]).0 == least;
        let j = choose|j: int| 0 <= j < less.len() && (#[trigger] less[j]).0 == most;
        assert(skews[i] == less[i] && skews[j] == less[j]);
        assert forall|k: int| 0 <= k < last implies least <= (#[trigger] skews[k]).0 <= most by {
            assert(skews[k] == less[k]);
        }
    } else {
        assert(with_all_skews(window, less) == window);
        assert(rejected_among(less) == 0);
    }
}

/// By how much a total has grown; nothing, where it has not.
pub open spec fn grown(now: u64, before: u64) -> u64 {
    if now >= before {
        (now - before) as u64
    } else {
        0
    }
}

/// The minute that an instant falls into.
pub open spec fn minute(at: Timestamp) -> Timestamp {
    Timestamp { secs: time::floored(at.secs as int, 60) as i64, nanos: 0 }
}

/// Floors an instant to its minute.
pub fn floor_to_minute(ts: Timestamp) -> (r: Timestamp)
    requires
        ts.valid(),
    ensures
        r == minute(ts),
        r.valid(),
        r.secs <= ts.secs < r.secs + 60,
        r.secs as int % 60 == 0,
        r.nanos == 0,
{
    let floor = time::floor_seconds(ts.secs, 60);
    match time::timestamp_opt(floor, 0) {
        Some(found) => found,
        None => ts,
    }
}

} // verus!
