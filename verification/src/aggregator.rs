//! In-memory aggregation into buckets of five minutes.
//!
//! Every matched flow adds to the counters of one or two `(bucket, address)` pairs. The counters
//! hold what has come in since they were last taken out, never a running total, so a flow that
//! arrives late for its bucket simply adds another difference under the same key.

use vstd::prelude::*;

use crate::day_sums;
use crate::ledger::{self, Ledger, LedgerKey};
use crate::time::{self, Day, Timestamp, MAX_SECONDS};

verus! {

/// The width of a bucket.
pub const BUCKET_SECONDS: i64 = 300;

/// How far the clock in Taipei is ahead of UTC. There is no daylight saving time.
pub const TAIPEI_OFFSET_SECONDS: i64 = 28_800;

/// Bytes received and sent by one host, inside the intranet and across its boundary.
#[derive(Clone, Copy, Debug, PartialEq, Eq, Structural)]
pub struct Counters {
    pub intra_rx: i64,
    pub intra_tx: i64,
    pub ext_rx: i64,
    pub ext_tx: i64,
}

/// Four counters as plain numbers.
pub struct Tally {
    pub intra_rx: int,
    pub intra_tx: int,
    pub ext_rx: int,
    pub ext_tx: int,
}

impl Tally {
    /// Nothing counted.
    pub open spec fn zero() -> Tally {
        Tally { intra_rx: 0, intra_tx: 0, ext_rx: 0, ext_tx: 0 }
    }

    /// Both counts together.
    pub open spec fn plus(self, other: Tally) -> Tally {
        Tally {
            intra_rx: self.intra_rx + other.intra_rx,
            intra_tx: self.intra_tx + other.intra_tx,
            ext_rx: self.ext_rx + other.ext_rx,
            ext_tx: self.ext_tx + other.ext_tx,
        }
    }

    /// Whether each number is one that a counter can hold.
    pub open spec fn fits(self) -> bool {
        &&& i64::MIN <= self.intra_rx <= i64::MAX
        &&& i64::MIN <= self.intra_tx <= i64::MAX
        &&& i64::MIN <= self.ext_rx <= i64::MAX
        &&& i64::MIN <= self.ext_tx <= i64::MAX
    }
}

impl View for Counters {
    type V = Tally;

    open spec fn view(&self) -> Tally {
        Tally {
            intra_rx: self.intra_rx as int,
            intra_tx: self.intra_tx as int,
            ext_rx: self.ext_rx as int,
            ext_tx: self.ext_tx as int,
        }
    }
}

impl Default for Counters {
    fn default() -> (r: Self)
        ensures
            r@ == Tally::zero(),
            r.intra_rx == 0 && r.intra_tx == 0 && r.ext_rx == 0 && r.ext_tx == 0,
    {
        Counters { intra_rx: 0, intra_tx: 0, ext_rx: 0, ext_tx: 0 }
    }
}

impl Counters {
    /// Whether nothing is counted.
    pub fn is_zero(&self) -> (r: bool)
        ensures
            r == (self@ == Tally::zero()),
            r == (self.intra_rx == 0 && self.intra_tx == 0 && self.ext_rx == 0 && self.ext_tx == 0),
    {
        self.intra_rx == 0 && self.intra_tx == 0 && self.ext_rx == 0 && self.ext_tx == 0
    }

    /// Adds another count to this one.
    pub fn add(&mut self, other: &Counters)
        requires
            old(self)@.plus(other@).fits(),
        ensures
            final(self)@ == old(self)@.plus(other@),
            final(self).intra_rx == old(self).intra_rx + other.intra_rx,
            final(self).intra_tx == old(self).intra_tx + other.intra_tx,
            final(self).ext_rx == old(self).ext_rx + other.ext_rx,
            final(self).ext_tx == old(self).ext_tx + other.ext_tx,
    {
        self.intra_rx = self.intra_rx + other.intra_rx;
        self.intra_tx = self.intra_tx + other.intra_tx;
        self.ext_rx = self.ext_rx + other.ext_rx;
        self.ext_tx = self.ext_tx + other.ext_tx;
    }
}

impl Counters {
    /// Whether a counter can hold both counts together.
    pub fn can_add(&self, other: &Counters) -> (r: bool)
        ensures
            r == self@.plus(other@).fits(),
            r == ({
                &&& i64::MIN <= self.intra_rx + other.intra_rx <= i64::MAX
                &&& i64::MIN <= self.intra_tx + other.intra_tx <= i64::MAX
                &&& i64::MIN <= self.ext_rx + other.ext_rx <= i64::MAX
                &&& i64::MIN <= self.ext_tx + other.ext_tx <= i64::MAX
            }),
    {
        self.intra_rx.checked_add(other.intra_rx).is_some() && self.intra_tx.checked_add(
            other.intra_tx,
        ).is_some() && self.ext_rx.checked_add(other.ext_rx).is_some() && self.ext_tx.checked_add(
            other.ext_tx,
        ).is_some()
    }
}

/// A bucket and the host that its counters are kept for.
#[derive(Clone, Copy, PartialEq, Eq, Hash, Debug, Structural)]
pub struct StatKey {
    pub bucket: Timestamp,
    pub addr: u32,
}

/// A day and the host that its counters are kept for.
#[derive(Clone, Copy, PartialEq, Eq, Hash, Debug, Structural)]
pub struct DayKey {
    pub day: Day,
    pub addr: u32,
}

impl LedgerKey for StatKey {
    open spec fn code(self) -> u128 {
        ((self.bucket.secs + 0x8000_0000_0000_0000) * 0x1_0000_0000_0000_0000 + self.bucket.nanos
            * 0x1_0000_0000 + self.addr) as u128
    }

    proof fn code_is_injective(self, other: Self) {
        let a = self.bucket.secs + 0x8000_0000_0000_0000;
        let b = other.bucket.secs + 0x8000_0000_0000_0000;
        assert(0 <= a < 0x1_0000_0000_0000_0000 && 0 <= b < 0x1_0000_0000_0000_0000);
        assert(a == b);
        assert(self.bucket.nanos == other.bucket.nanos);
    }

    fn to_code(&self) -> u128 {
        let shifted: i128 = self.bucket.secs as i128 + 0x8000_0000_0000_0000;
        (shifted as u128) * 0x1_0000_0000_0000_0000 + (self.bucket.nanos as u128) * 0x1_0000_0000 + (
        self.addr as u128)
    }
}

impl LedgerKey for DayKey {
    open spec fn code(self) -> u128 {
        ((self.day.number + 0x8000_0000) * 0x1_0000_0000 + self.addr) as u128
    }

    proof fn code_is_injective(self, other: Self) {
    }

    fn to_code(&self) -> u128 {
        let shifted: i128 = self.day.number as i128 + 0x8000_0000;
        (shifted as u128) * 0x1_0000_0000 + (self.addr as u128)
    }
}

/// What has been counted for one host in one bucket.
#[derive(Clone, Copy, Debug)]
pub struct StatDelta {
    pub key: StatKey,
    pub counters: Counters,
}

/// What has been counted for one host in one day.
#[derive(Clone, Copy, Debug)]
pub struct DayDelta {
    pub day: Day,
    pub addr: u32,
    pub counters: Counters,
}

// ── buckets and days ────────────────────────────────────────────────────────

/// The bucket that an instant falls into.
pub open spec fn bucket(at: Timestamp) -> Timestamp {
    Timestamp { secs: time::floored(at.secs as int, BUCKET_SECONDS as int) as i64, nanos: 0 }
}

/// Whether the calendar has the instant that is eight hours later.
pub open spec fn has_local_day(at: Timestamp) -> bool {
    at.valid() && at.secs + TAIPEI_OFFSET_SECONDS <= MAX_SECONDS
}

/// The day in Taipei that an instant falls on.
pub open spec fn local_day(at: Timestamp) -> Day {
    Day { number: time::day_number(at.secs + TAIPEI_OFFSET_SECONDS) as i32 }
}

/// Floors an instant to its bucket of five minutes.
pub fn bucket_of(ts: Timestamp) -> (r: Timestamp)
    requires
        ts.valid(),
    ensures
        r == bucket(ts),
        r.valid(),
        r.secs <= ts.secs < r.secs + BUCKET_SECONDS,
        r.secs as int % BUCKET_SECONDS as int == 0,
        r.nanos == 0 && r.secs as int % 300 == 0 && r.secs <= ts.secs < r.secs + 300,
{
    let floor = time::floor_seconds(ts.secs, BUCKET_SECONDS);
    match time::timestamp_opt(floor, 0) {
        Some(found) => found,
        None => Timestamp { secs: 0, nanos: 0 },
    }
}

/// The day in Taipei that a bucket belongs to.
pub fn taipei_day(bucket: Timestamp) -> (r: Day)
    requires
        has_local_day(bucket),
    ensures
        r == local_day(bucket),
        r.valid(),
        r.number == time::day_number(bucket.secs + TAIPEI_OFFSET_SECONDS),
        (r.number - 719_163) * 86_400 <= bucket.secs + 28_800 < (r.number - 719_162) * 86_400,
{
    time::date_of(time::plus_seconds(bucket, TAIPEI_OFFSET_SECONDS))
}

/// No bucket straddles midnight in Taipei: an instant and its bucket fall on the same day.
pub proof fn bucket_keeps_the_day(at: Timestamp)
    requires
        has_local_day(at),
    ensures
        has_local_day(bucket(at)),
        local_day(bucket(at)) == local_day(at),
{
    let local = at.secs + TAIPEI_OFFSET_SECONDS;
    let day = local / 86_400;
    let slot = local % 86_400 / 300;
    let rest = local % 86_400 % 300;
    let floor = at.secs - at.secs as int % 300;
    assert(at.secs == 300 * (288 * day + slot - 96) + rest);
    vstd::arithmetic::div_mod::lemma_fundamental_div_mod_converse(
        at.secs as int,
        300,
        288 * day + slot - 96,
        rest,
    );
    assert(floor + TAIPEI_OFFSET_SECONDS == 86_400 * day + 300 * slot);
    vstd::arithmetic::div_mod::lemma_fundamental_div_mod_converse(
        floor + TAIPEI_OFFSET_SECONDS,
        86_400,
        day,
        300 * slot,
    );
}

/// A bucket is its own bucket.
pub proof fn bucket_is_idempotent(at: Timestamp)
    requires
        at.valid(),
    ensures
        bucket(bucket(at)) == bucket(at),
{
}

/// Instants of one bucket come in the same order as their buckets: flooring never swaps two.
pub proof fn bucket_keeps_order(a: Timestamp, b: Timestamp)
    requires
        a.valid(),
        b.valid(),
        a.before(b),
    ensures
        bucket(a).secs <= bucket(b).secs,
{
}

// ── the aggregator ──────────────────────────────────────────────────────────

/// Bytes sent by a host, as a tally.
pub open spec fn sent(intra: bool, bytes: int) -> Tally {
    if intra {
        Tally { intra_tx: bytes, ..Tally::zero() }
    } else {
        Tally { ext_tx: bytes, ..Tally::zero() }
    }
}

/// Bytes received by a host, as a tally.
pub open spec fn received(intra: bool, bytes: int) -> Tally {
    if intra {
        Tally { intra_rx: bytes, ..Tally::zero() }
    } else {
        Tally { ext_rx: bytes, ..Tally::zero() }
    }
}

/// The entries of a map under which something is counted.
pub open spec fn nonzero(m: Map<StatKey, Tally>) -> Map<StatKey, Tally> {
    Map::new(|k: StatKey| m.contains_key(k) && m[k] != Tally::zero(), |k: StatKey| m[k])
}

/// Bucket rows as keys and counters.
pub open spec fn bucket_rows(rows: Seq<StatDelta>) -> Seq<(StatKey, Counters)> {
    Seq::new(rows.len(), |i: int| (rows[i].key, rows[i].counters))
}

/// Day rows as keys and counters.
pub open spec fn day_rows(rows: Seq<DayDelta>) -> Seq<(DayKey, Counters)> {
    Seq::new(
        rows.len(),
        |i: int| (DayKey { day: rows[i].day, addr: rows[i].addr }, rows[i].counters),
    )
}

/// The day and the host that a bucket row counts towards.
pub open spec fn day_key(row: StatDelta) -> DayKey {
    DayKey { day: local_day(row.key.bucket), addr: row.key.addr }
}

/// Bucket rows added up by day and host.
pub open spec fn day_totals(rows: Seq<StatDelta>) -> Map<DayKey, Tally>
    decreases rows.len(),
{
    if rows.len() == 0 {
        Map::empty()
    } else {
        ledger::with_added(
            day_totals(rows.drop_last()),
            day_key(rows.last()),
            rows.last().counters@,
        )
    }
}

/// Whether a counter can hold each tally of a map.
pub open spec fn all_fit<K>(m: Map<K, Tally>) -> bool {
    forall|k: K| #[trigger] m.contains_key(k) ==> m[k].fits()
}

/// Whether the day totals of some entries stay within what a counter can hold, whichever entries
/// they are and in whatever order they are added up.
pub open spec fn days_fit(m: Map<StatKey, Tally>) -> bool {
    forall|rows: Seq<StatDelta>|
        ledger::lists_some(#[trigger] bucket_rows(rows), m) ==> all_fit(day_totals(rows))
}

/// Whether the calendar has the day in Taipei of each bucket.
pub open spec fn days_exist(m: Map<StatKey, Tally>) -> bool {
    forall|k: StatKey| #[trigger] m.contains_key(k) ==> has_local_day(k.bucket)
}

/// What has been counted since it was last taken out.
pub struct Aggregator {
    pending: Ledger<StatKey>,
}

impl View for Aggregator {
    type V = Map<StatKey, Tally>;

    closed spec fn view(&self) -> Map<StatKey, Tally> {
        self.pending@
    }
}

impl Default for Aggregator {
    fn default() -> (r: Self)
        ensures
            r.wf(),
            r@ == Map::<StatKey, Tally>::empty(),
    {
        Aggregator::new()
    }
}

impl Aggregator {
    /// The counters are filed as they should be.
    pub closed spec fn wf(&self) -> bool {
        self.pending.wf()
    }

    /// An aggregator with nothing in it.
    pub fn new() -> (r: Self)
        ensures
            r.wf(),
            r@ == Map::<StatKey, Tally>::empty(),
    {
        Aggregator { pending: Ledger::new() }
    }

    /// Counts traffic sent by the host `addr`.
    pub fn add_tx(&mut self, bucket: Timestamp, addr: u32, intra: bool, bytes: i64)
        requires
            old(self).wf(),
            ledger::tally_at(old(self)@, StatKey { bucket, addr }).plus(
                sent(intra, bytes as int),
            ).fits(),
        ensures
            final(self).wf(),
            final(self)@ == ledger::with_added(
                old(self)@,
                StatKey { bucket, addr },
                sent(intra, bytes as int),
            ),
            final(self)@.contains_key(StatKey { bucket, addr }),
            ({
                let before = ledger::tally_at(old(self)@, StatKey { bucket, addr });
                let after = final(self)@[StatKey { bucket, addr }];
                &&& after.intra_tx == before.intra_tx + if intra { bytes as int } else { 0 }
                &&& after.ext_tx == before.ext_tx + if intra { 0 } else { bytes as int }
                &&& after.intra_rx == before.intra_rx
                &&& after.ext_rx == before.ext_rx
            }),
            forall|k: StatKey|
                k != (StatKey { bucket, addr }) ==> #[trigger] ledger::unchanged_at(
                    final(self)@,
                    old(self)@,
                    k,
                ),
    {
        let delta = tx_delta(intra, bytes);
        self.pending.add(StatKey { bucket, addr }, &delta);
    }

    /// Counts traffic received by the host `addr`.
    pub fn add_rx(&mut self, bucket: Timestamp, addr: u32, intra: bool, bytes: i64)
        requires
            old(self).wf(),
            ledger::tally_at(old(self)@, StatKey { bucket, addr }).plus(
                received(intra, bytes as int),
            ).fits(),
        ensures
            final(self).wf(),
            final(self)@ == ledger::with_added(
                old(self)@,
                StatKey { bucket, addr },
                received(intra, bytes as int),
            ),
            final(self)@.contains_key(StatKey { bucket, addr }),
            ({
                let before = ledger::tally_at(old(self)@, StatKey { bucket, addr });
                let after = final(self)@[StatKey { bucket, addr }];
                &&& after.intra_rx == before.intra_rx + if intra { bytes as int } else { 0 }
                &&& after.ext_rx == before.ext_rx + if intra { 0 } else { bytes as int }
                &&& after.intra_tx == before.intra_tx
                &&& after.ext_tx == before.ext_tx
            }),
            forall|k: StatKey|
                k != (StatKey { bucket, addr }) ==> #[trigger] ledger::unchanged_at(
                    final(self)@,
                    old(self)@,
                    k,
                ),
    {
        let delta = rx_delta(intra, bytes);
        self.pending.add(StatKey { bucket, addr }, &delta);
    }

    /// Whether a counter can hold what counting traffic sent by a host would make of it.
    pub fn can_add_tx(&self, bucket: Timestamp, addr: u32, intra: bool, bytes: i64) -> (r: bool)
        requires
            self.wf(),
        ensures
            r == ledger::tally_at(self@, StatKey { bucket, addr }).plus(
                sent(intra, bytes as int),
            ).fits(),
            r == ({
                let before = ledger::tally_at(self@, StatKey { bucket, addr });
                let inside = before.intra_tx + if intra { bytes as int } else { 0 };
                let outside = before.ext_tx + if intra { 0 } else { bytes as int };
                &&& i64::MIN <= inside <= i64::MAX
                &&& i64::MIN <= outside <= i64::MAX
                &&& i64::MIN <= before.intra_rx <= i64::MAX
                &&& i64::MIN <= before.ext_rx <= i64::MAX
            }),
    {
        let delta = tx_delta(intra, bytes);
        self.pending.accepts(StatKey { bucket, addr }, &delta)
    }

    /// Whether a counter can hold what counting traffic received by a host would make of it.
    pub fn can_add_rx(&self, bucket: Timestamp, addr: u32, intra: bool, bytes: i64) -> (r: bool)
        requires
            self.wf(),
        ensures
            r == ledger::tally_at(self@, StatKey { bucket, addr }).plus(
                received(intra, bytes as int),
            ).fits(),
            r == ({
                let before = ledger::tally_at(self@, StatKey { bucket, addr });
                let inside = before.intra_rx + if intra { bytes as int } else { 0 };
                let outside = before.ext_rx + if intra { 0 } else { bytes as int };
                &&& i64::MIN <= inside <= i64::MAX
                &&& i64::MIN <= outside <= i64::MAX
                &&& i64::MIN <= before.intra_tx <= i64::MAX
                &&& i64::MIN <= before.ext_tx <= i64::MAX
            }),
    {
        let delta = rx_delta(intra, bytes);
        self.pending.accepts(StatKey { bucket, addr }, &delta)
    }

    /// Whether the calendar has every day that the buckets fall on, and no sum over a day can go
    /// past what a counter can hold.
    pub fn can_drain(&self) -> (r: bool)
        requires
            self.wf(),
        ensures
            r == (days_exist(self@) && days_fit(self@)),
    {
        let pending = self.pending.rows();
        let mut gains: Ledger<DayKey> = Ledger::new();
        let mut losses: Ledger<DayKey> = Ledger::new();
        let ghost mut seen: Seq<StatDelta> = Seq::empty();
        let mut i: usize = 0;
        while i < pending.len()
            invariant
                self.wf(),
                i <= pending.len(),
                ledger::lists_all(pending@, self@),
                bucket_rows(seen) == pending@.take(i as int),
                gains.wf(),
                losses.wf(),
                gains@ == day_totals(day_sums::gains_of(seen)),
                losses@ == day_totals(day_sums::losses_of(seen)),
                all_fit(gains@),
                all_fit(losses@),
                forall|p: int| 0 <= p < i ==> has_local_day((#[trigger] pending@[p]).0.bucket),
            decreases pending.len() - i,
        {
            let (key, counters) = pending[i];
            proof {
                assert(pending@[i as int].0 == key);
                assert(self@.contains_key(key));
            }
            if !is_dated(key.bucket) {
                return false;
            }
            let day = DayKey { day: taipei_day(key.bucket), addr: key.addr };
            let gain = gain_part(&counters);
            let loss = loss_part(&counters);
            let ghost row = StatDelta { key, counters };
            let ghost before = seen;
            proof {
                seen = seen.push(row);
                assert(bucket_rows(seen) =~= bucket_rows(before).push((key, counters)));
                assert(pending@.take(i + 1) =~= pending@.take(i as int).push(pending@[i as int]));
                lemma_lists_some_take(pending@, self@, i + 1);
                assert(day_sums::gains_of(seen).drop_last() =~= day_sums::gains_of(before));
                assert(day_sums::losses_of(seen).drop_last() =~= day_sums::losses_of(before));
                assert(day_totals(day_sums::gains_of(seen)) == ledger::with_added(gains@, day, gain@));
                assert(day_totals(day_sums::losses_of(seen)) == ledger::with_added(losses@, day, loss@));
            }
            if !gains.accepts(day, &gain) {
                proof {
                    day_sums::unbounded_rows_do_not_fit(seen, self@, day, true);
                }
                return false;
            }
            if !losses.accepts(day, &loss) {
                proof {
                    day_sums::unbounded_rows_do_not_fit(seen, self@, day, false);
                }
                return false;
            }
            gains.add(day, &gain);
            losses.add(day, &loss);
            i += 1;
        }
        proof {
            assert(pending@.take(i as int) =~= pending@);
            day_sums::bounded_rows_fit(seen, self@);
            assert forall|k: StatKey| #[trigger] self@.contains_key(k) implies has_local_day(k.bucket) by {
                let p = choose|p: int| 0 <= p < pending@.len() && (#[trigger] pending@[p]).0 == k;
                assert(has_local_day(pending@[p].0.bucket));
            }
        }
        true
    }

    /// Takes out everything counted so far and leaves the aggregator empty.
    ///
    /// The first result holds every bucket with something in it; the second holds the same counters
    /// added up by day, so that a day and a host come up in one row only.
    pub fn drain(&mut self) -> (r: (Vec<StatDelta>, Vec<DayDelta>))
        requires
            old(self).wf(),
            days_exist(old(self)@),
            days_fit(old(self)@),
        ensures
            final(self).wf(),
            final(self)@ == Map::<StatKey, Tally>::empty(),
            ledger::lists_all(bucket_rows(r.0@), nonzero(old(self)@)),
            ledger::lists_all(day_rows(r.1@), day_totals(r.0@)),
            forall|i: int|
                0 <= i < r.0@.len() ==> ({
                    let row = #[trigger] r.0@[i];
                    &&& old(self)@.contains_key(row.key)
                    &&& row.counters.intra_rx == old(self)@[row.key].intra_rx
                    &&& row.counters.intra_tx == old(self)@[row.key].intra_tx
                    &&& row.counters.ext_rx == old(self)@[row.key].ext_rx
                    &&& row.counters.ext_tx == old(self)@[row.key].ext_tx
                    &&& row.counters.intra_rx != 0 || row.counters.intra_tx != 0
                        || row.counters.ext_rx != 0 || row.counters.ext_tx != 0
                }),
            forall|i: int, j: int|
                0 <= i < j < r.0@.len() ==> (#[trigger] r.0@[i]).key != (#[trigger] r.0@[j]).key,
            forall|k: StatKey| #[trigger]
                old(self)@.contains_key(k) && (old(self)@[k].intra_rx != 0 || old(self)@[k].intra_tx
                    != 0 || old(self)@[k].ext_rx != 0 || old(self)@[k].ext_tx != 0)
                    ==> has_bucket_for(r.0@, k),
            forall|i: int|
                0 <= i < r.1@.len() ==> ({
                    let row = #[trigger] r.1@[i];
                    let sum = host_day_sum(r.0@, row.day, row.addr);
                    &&& row.counters.intra_rx == sum.intra_rx
                    &&& row.counters.intra_tx == sum.intra_tx
                    &&& row.counters.ext_rx == sum.ext_rx
                    &&& row.counters.ext_tx == sum.ext_tx
                }),
            forall|b: int|
                0 <= b < r.0@.len() ==> has_row_for(
                    r.1@,
                    local_day((#[trigger] r.0@[b]).key.bucket),
                    r.0@[b].key.addr,
                ),
    {
        let pending = self.pending.rows();
        let ghost before = self@;
        self.pending = Ledger::new();
        let mut buckets: Vec<StatDelta> = Vec::new();
        let mut by_day: Ledger<DayKey> = Ledger::new();
        let mut i: usize = 0;
        while i < pending.len()
            invariant
                i <= pending.len(),
                ledger::lists_all(pending@, before),
                days_exist(before),
                days_fit(before),
                by_day.wf(),
                by_day@ == day_totals(buckets@),
                ledger::lists_some(bucket_rows(buckets@), before),
                forall|b: int|
                    0 <= b < buckets@.len() ==> exists|p: int|
                        0 <= p < i && (#[trigger] pending@[p]).0 == (#[trigger] buckets@[b]).key,
                forall|b: int| 0 <= b < buckets@.len() ==> (#[trigger] buckets@[b]).counters@ != Tally::zero(),
                forall|p: int|
                    0 <= p < i && (#[trigger] pending@[p]).1@ != Tally::zero() ==> exists|b: int|
                        0 <= b < buckets@.len() && (#[trigger] buckets@[b]).key == pending@[p].0,
            decreases pending.len() - i,
        {
            let (key, counters) = pending[i];
            if !counters.is_zero() {
                let ghost listed = buckets@;
                let row = StatDelta { key, counters };
                buckets.push(row);
                proof {
                    assert(pending@[i as int].0 == key);
                    assert(before.contains_key(key));
                    assert(buckets@.drop_last() =~= listed);
                    assert(buckets@.last() == row);
                    assert forall|b: int| 0 <= b < listed.len() implies (#[trigger] listed[b]).key != key by {
                        assert(buckets@[b] == listed[b]);
                        let p = choose|p: int| 0 <= p < i && (#[trigger] pending@[p]).0 == listed[b].key;
                        assert(pending@[p].0 != pending@[i as int].0);
                    }
                    lemma_lists_some_push(listed, row, before);
                    assert(day_totals(buckets@).contains_key(day_key(row)));
                }
                by_day.add(DayKey { day: taipei_day(key.bucket), addr: key.addr }, &counters);
                proof {
                    assert forall|b: int| 0 <= b < buckets@.len() implies exists|p: int|
                        0 <= p < i + 1 && (#[trigger] pending@[p]).0 == (#[trigger] buckets@[b]).key by {
                        if b < listed.len() {
                            assert(buckets@[b] == listed[b]);
                            let p = choose|p: int|
                                0 <= p < i && (#[trigger] pending@[p]).0 == listed[b].key;
                            assert(pending@[p].0 == buckets@[b].key);
                        } else {
                            assert(pending@[i as int].0 == buckets@[b].key);
                        }
                    }
                    assert forall|p: int|
                        0 <= p < i + 1 && (#[trigger] pending@[p]).1@ != Tally::zero() implies exists|b: int|
                        0 <= b < buckets@.len() && (#[trigger] buckets@[b]).key == pending@[p].0 by {
                        if p < i {
                            let b = choose|b: int|
                                0 <= b < listed.len() && (#[trigger] listed[b]).key == pending@[p].0;
                            assert(buckets@[b] == listed[b]);
                        } else {
                            assert(buckets@[listed.len() as int].key == pending@[p].0);
                        }
                    }
                }
            }
            i += 1;
        }
        proof {
            lemma_lists_nonzero(pending@, buckets@, before);
        }
        let days = day_deltas(&by_day);
        proof {
            days_hold_what_their_buckets_hold(buckets@, days@);
            let rows = bucket_rows(buckets@);
            assert forall|i: int| 0 <= i < buckets@.len() implies nonzero(before).contains_key(
                (#[trigger] buckets@[i]).key,
            ) && nonzero(before)[buckets@[i].key] == buckets@[i].counters@ by {
                assert(rows[i] == (buckets@[i].key, buckets@[i].counters));
            }
            assert forall|i: int, j: int| 0 <= i < j < buckets@.len() implies (
            #[trigger] buckets@[i]).key != (#[trigger] buckets@[j]).key by {
                assert(rows[i].0 != rows[j].0);
            }
            assert forall|k: StatKey| #[trigger] before.contains_key(k) && (before[k].intra_rx != 0
                || before[k].intra_tx != 0 || before[k].ext_rx != 0 || before[k].ext_tx
                != 0) implies has_bucket_for(buckets@, k) by {
                assert(nonzero(before).contains_key(k));
                let i = choose|i: int| 0 <= i < rows.len() && (#[trigger] rows[i]).0 == k;
                assert(buckets@[i].key == k);
            }
        }
        (buckets, days)
    }
}

/// Whether the calendar has the instant that is eight hours later.
pub fn is_dated(at: Timestamp) -> (r: bool)
    ensures
        r == has_local_day(at),
        r == (at.valid() && at.secs + 28_800 <= MAX_SECONDS),
{
    match time::timestamp_opt(at.secs, at.nanos) {
        Some(_) => at.secs <= MAX_SECONDS - TAIPEI_OFFSET_SECONDS,
        None => false,
    }
}

/// The counters that are above zero.
fn gain_part(c: &Counters) -> (r: Counters)
    ensures
        forall|key: StatKey| #[trigger] day_sums::gain_of(StatDelta { key, counters: *c }).counters == r,
{
    Counters {
        intra_rx: if c.intra_rx > 0 { c.intra_rx } else { 0 },
        intra_tx: if c.intra_tx > 0 { c.intra_tx } else { 0 },
        ext_rx: if c.ext_rx > 0 { c.ext_rx } else { 0 },
        ext_tx: if c.ext_tx > 0 { c.ext_tx } else { 0 },
    }
}

/// The counters that are below zero.
fn loss_part(c: &Counters) -> (r: Counters)
    ensures
        forall|key: StatKey| #[trigger] day_sums::loss_of(StatDelta { key, counters: *c }).counters == r,
{
    Counters {
        intra_rx: if c.intra_rx < 0 { c.intra_rx } else { 0 },
        intra_tx: if c.intra_tx < 0 { c.intra_tx } else { 0 },
        ext_rx: if c.ext_rx < 0 { c.ext_rx } else { 0 },
        ext_tx: if c.ext_tx < 0 { c.ext_tx } else { 0 },
    }
}

/// The first rows of a listing list some entries.
proof fn lemma_lists_some_take(rows: Seq<(StatKey, Counters)>, m: Map<StatKey, Tally>, n: int)
    requires
        ledger::lists_some(rows, m),
        0 <= n <= rows.len(),
    ensures
        ledger::lists_some(rows.take(n), m),
{
    assert forall|i: int| 0 <= i < n implies m.contains_key((#[trigger] rows.take(n)[i]).0)
        && m[rows.take(n)[i].0] == rows.take(n)[i].1@ by {
        assert(rows.take(n)[i] == rows[i]);
    }
    assert forall|i: int, j: int| 0 <= i < j < n implies (#[trigger] rows.take(n)[i]).0
        != (#[trigger] rows.take(n)[j]).0 by {
        assert(rows.take(n)[i] == rows[i] && rows.take(n)[j] == rows[j]);
    }
}

/// Bytes sent by a host, as counters.
fn tx_delta(intra: bool, bytes: i64) -> (r: Counters)
    ensures
        r@ == sent(intra, bytes as int),
{
    let mut delta = Counters::default();
    if intra {
        delta.intra_tx = bytes;
    } else {
        delta.ext_tx = bytes;
    }
    delta
}

/// Bytes received by a host, as counters.
fn rx_delta(intra: bool, bytes: i64) -> (r: Counters)
    ensures
        r@ == received(intra, bytes as int),
{
    let mut delta = Counters::default();
    if intra {
        delta.intra_rx = bytes;
    } else {
        delta.ext_rx = bytes;
    }
    delta
}

/// The rows of a ledger of days.
pub fn day_deltas(by_day: &Ledger<DayKey>) -> (r: Vec<DayDelta>)
    requires
        by_day.wf(),
    ensures
        ledger::lists_all(day_rows(r@), by_day@),
{
    let rows = by_day.rows();
    let mut out: Vec<DayDelta> = Vec::new();
    let mut i: usize = 0;
    while i < rows.len()
        invariant
            i <= rows.len(),
            day_rows(out@) == rows@.take(i as int),
        decreases rows.len() - i,
    {
        let (key, counters) = rows[i];
        let ghost before = out@;
        out.push(DayDelta { day: key.day, addr: key.addr, counters });
        i += 1;
        assert(day_rows(out@) =~= day_rows(before).push(rows@[i - 1]));
        assert(rows@.take(i as int) =~= rows@.take(i - 1).push(rows@[i - 1]));
    }
    assert(day_rows(out@) =~= rows@);
    out
}

proof fn lemma_lists_some_push(rows: Seq<StatDelta>, row: StatDelta, m: Map<StatKey, Tally>)
    requires
        ledger::lists_some(bucket_rows(rows), m),
        m.contains_key(row.key),
        m[row.key] == row.counters@,
        forall|b: int| 0 <= b < rows.len() ==> (#[trigger] rows[b]).key != row.key,
    ensures
        ledger::lists_some(bucket_rows(rows.push(row)), m),
{
    let more = bucket_rows(rows.push(row));
    let less = bucket_rows(rows);
    assert forall|i: int| 0 <= i < more.len() implies m.contains_key((#[trigger] more[i]).0)
        && m[more[i].0] == more[i].1@ by {
        if i < rows.len() {
            assert(more[i] == less[i]);
        }
    }
    assert forall|i: int, j: int| 0 <= i < j < more.len() implies (#[trigger] more[i]).0
        != (#[trigger] more[j]).0 by {
        assert(more[i] == less[i]);
        if j < rows.len() {
            assert(more[j] == less[j]);
        } else {
            assert(rows[i].key != row.key);
        }
    }
}

proof fn lemma_lists_nonzero(
    pending: Seq<(StatKey, Counters)>,
    buckets: Seq<StatDelta>,
    m: Map<StatKey, Tally>,
)
    requires
        ledger::lists_all(pending, m),
        ledger::lists_some(bucket_rows(buckets), m),
        forall|b: int| 0 <= b < buckets.len() ==> (#[trigger] buckets[b]).counters@ != Tally::zero(),
        forall|p: int|
            0 <= p < pending.len() && (#[trigger] pending[p]).1@ != Tally::zero() ==> exists|b: int|
                0 <= b < buckets.len() && (#[trigger] buckets[b]).key == pending[p].0,
    ensures
        ledger::lists_all(bucket_rows(buckets), nonzero(m)),
{
    let rows = bucket_rows(buckets);
    assert forall|i: int| 0 <= i < rows.len() implies nonzero(m).contains_key((#[trigger] rows[i]).0)
        && nonzero(m)[rows[i].0] == rows[i].1@ by {
        assert(buckets[i].counters@ != Tally::zero());
    }
    assert forall|k: StatKey| #[trigger] nonzero(m).contains_key(k) implies exists|i: int|
        0 <= i < rows.len() && (#[trigger] rows[i]).0 == k by {
        assert(m.contains_key(k));
        let p = choose|p: int| 0 <= p < pending.len() && (#[trigger] pending[p]).0 == k;
        let b = choose|b: int| 0 <= b < buckets.len() && (#[trigger] buckets[b]).key == pending[p].0;
        assert(rows[b].0 == k);
    }
}

// ── what comes out of what went in ──────────────────────────────────────────

/// One call of `add_tx` or `add_rx`.
pub struct Addition {
    pub key: StatKey,
    /// Whether it counts traffic as sent.
    pub tx: bool,
    pub intra: bool,
    pub bytes: int,
}

impl Addition {
    /// What it adds to the counters of its key.
    pub open spec fn gain(self) -> Tally {
        if self.tx {
            sent(self.intra, self.bytes)
        } else {
            received(self.intra, self.bytes)
        }
    }
}

/// What an empty aggregator has counted after additions.
pub open spec fn counted(additions: Seq<Addition>) -> Map<StatKey, Tally>
    decreases additions.len(),
{
    if additions.len() == 0 {
        Map::empty()
    } else {
        ledger::with_added(
            counted(additions.drop_last()),
            additions.last().key,
            additions.last().gain(),
        )
    }
}

/// What additions add to the counters of a key, all together.
pub open spec fn gained(additions: Seq<Addition>, key: StatKey) -> Tally
    decreases additions.len(),
{
    if additions.len() == 0 {
        Tally::zero()
    } else if additions.last().key == key {
        gained(additions.drop_last(), key).plus(additions.last().gain())
    } else {
        gained(additions.drop_last(), key)
    }
}

/// What a day row is kept by.
pub open spec fn key_of_day(row: DayDelta) -> DayKey {
    DayKey { day: row.day, addr: row.addr }
}

/// Whether there is one bucket row for each bucket and host whose sums over additions are not all
/// zero, with those sums, and no other row.
pub open spec fn sums_by_bucket(additions: Seq<Addition>, rows: Seq<StatDelta>) -> bool {
    &&& forall|i: int|
        0 <= i < rows.len() ==> (#[trigger] rows[i]).counters@ == gained(additions, rows[i].key)
            && rows[i].counters@ != Tally::zero()
    &&& day_sums::distinct_keys(rows)
    &&& forall|key: StatKey| #[trigger]
        gained(additions, key) != Tally::zero() ==> exists|i: int|
            0 <= i < rows.len() && (#[trigger] rows[i]).key == key
}

/// Whether there is one day row for each day and host of some bucket rows, with the sums over these,
/// and no other row.
pub open spec fn sums_by_day(buckets: Seq<StatDelta>, days: Seq<DayDelta>) -> bool {
    &&& forall|i: int, f: int|
        0 <= i < days.len() && 0 <= f < 4 ==> #[trigger] day_sums::part(days[i].counters@, f)
            == day_sums::day_sum(buckets, key_of_day(days[i]), f)
    &&& forall|i: int, j: int|
        0 <= i < j < days.len() ==> #[trigger] key_of_day(days[i]) != #[trigger] key_of_day(days[j])
    &&& forall|key: DayKey| #[trigger] has_day_row(days, key) <==> has_bucket_row(buckets, key)
}

/// Whether a day row is kept by a key.
pub open spec fn has_day_row(days: Seq<DayDelta>, key: DayKey) -> bool {
    exists|i: int| 0 <= i < days.len() && key_of_day(#[trigger] days[i]) == key
}

/// Whether a bucket row counts towards a key.
pub open spec fn has_bucket_row(buckets: Seq<StatDelta>, key: DayKey) -> bool {
    exists|b: int| 0 <= b < buckets.len() && day_key(#[trigger] buckets[b]) == key
}

/// Whatever has been added, and in whatever order, it comes out summed up: `buckets` and `days`, as
/// `drain` gives them, hold the sums by bucket and the sums by day.
pub proof fn what_was_added_comes_out(
    additions: Seq<Addition>,
    buckets: Seq<StatDelta>,
    days: Seq<DayDelta>,
)
    requires
        ledger::lists_all(bucket_rows(buckets), nonzero(counted(additions))),
        ledger::lists_all(day_rows(days), day_totals(buckets)),
    ensures
        sums_by_bucket(additions, buckets),
        sums_by_day(buckets, days),
{
    let rows = bucket_rows(buckets);
    let by_day = day_rows(days);
    let m = counted(additions);
    assert forall|i: int| 0 <= i < buckets.len() implies (#[trigger] buckets[i]).counters@ == gained(
        additions,
        buckets[i].key,
    ) && buckets[i].counters@ != Tally::zero() by {
        assert(nonzero(m).contains_key(rows[i].0) && nonzero(m)[rows[i].0] == rows[i].1@);
        lemma_counted(additions, buckets[i].key);
    }
    assert forall|i: int, j: int| 0 <= i < j < buckets.len() implies (#[trigger] buckets[i]).key
        != (#[trigger] buckets[j]).key by {
        assert(rows[i].0 != rows[j].0);
    }
    assert forall|key: StatKey| #[trigger] gained(additions, key) != Tally::zero() implies exists|i: int|
        0 <= i < buckets.len() && (#[trigger] buckets[i]).key == key by {
        lemma_counted(additions, key);
        assert(nonzero(m).contains_key(key));
        let i = choose|i: int| 0 <= i < rows.len() && (#[trigger] rows[i]).0 == key;
        assert(buckets[i].key == key);
    }
    assert forall|i: int, f: int|
        0 <= i < days.len() && 0 <= f < 4 implies #[trigger] day_sums::part(days[i].counters@, f)
        == day_sums::day_sum(buckets, key_of_day(days[i]), f) by {
        let key = by_day[i].0;
        assert(day_totals(buckets).contains_key(key) && day_totals(buckets)[key] == by_day[i].1@);
        day_sums::totals_are_sums(buckets, key, f);
    }
    assert forall|i: int, j: int| 0 <= i < j < days.len() implies #[trigger] key_of_day(days[i])
        != #[trigger] key_of_day(days[j]) by {
        assert(by_day[i].0 != by_day[j].0);
    }
    assert forall|key: DayKey| #[trigger] has_day_row(days, key) <==> has_bucket_row(buckets, key) by {
        day_sums::totals_have_rows(buckets, key);
        if has_bucket_row(buckets, key) {
            assert(day_totals(buckets).contains_key(key));
            let i = choose|i: int| 0 <= i < by_day.len() && (#[trigger] by_day[i]).0 == key;
            assert(key_of_day(days[i]) == key);
        }
        if has_day_row(days, key) {
            let i = choose|i: int| 0 <= i < days.len() && key_of_day(#[trigger] days[i]) == key;
            assert(by_day[i].0 == key);
            assert(day_totals(buckets).contains_key(key));
        }
    }
}

/// What is counted under a key is what has been added to it.
proof fn lemma_counted(additions: Seq<Addition>, key: StatKey)
    ensures
        ledger::tally_at(counted(additions), key) == gained(additions, key),
    decreases additions.len(),
{
    if additions.len() > 0 {
        lemma_counted(additions.drop_last(), key);
    }
}

/// The bytes that additions to a key count as sent or as received, inside the intranet or outside it.
pub open spec fn bytes_added(additions: Seq<Addition>, key: StatKey, tx: bool, intra: bool) -> int
    decreases additions.len(),
{
    if additions.len() == 0 {
        0
    } else {
        let last = additions.last();
        bytes_added(additions.drop_last(), key, tx, intra) + if last.key == key && last.tx == tx
            && last.intra == intra {
            last.bytes
        } else {
            0
        }
    }
}

/// What comes out is told apart as it went in: each of the four counters of a bucket row is the sum of
/// the additions to its key that were of its kind. A row comes out for every key where one of the four
/// sums is not zero.
pub proof fn kinds_are_told_apart(additions: Seq<Addition>, buckets: Seq<StatDelta>)
    requires
        ledger::lists_all(bucket_rows(buckets), nonzero(counted(additions))),
    ensures
        forall|i: int|
            0 <= i < buckets.len() ==> {
                let row = #[trigger] buckets[i];
                &&& row.counters.intra_rx == bytes_added(additions, row.key, false, true)
                &&& row.counters.intra_tx == bytes_added(additions, row.key, true, true)
                &&& row.counters.ext_rx == bytes_added(additions, row.key, false, false)
                &&& row.counters.ext_tx == bytes_added(additions, row.key, true, false)
            },
        forall|key: StatKey, tx: bool, intra: bool| #[trigger]
            bytes_added(additions, key, tx, intra) != 0 ==> exists|i: int|
                0 <= i < buckets.len() && (#[trigger] buckets[i]).key == key,
{
    let rows = bucket_rows(buckets);
    let m = counted(additions);
    assert forall|i: int| 0 <= i < buckets.len() implies {
        let row = #[trigger] buckets[i];
        &&& row.counters.intra_rx == bytes_added(additions, row.key, false, true)
        &&& row.counters.intra_tx == bytes_added(additions, row.key, true, true)
        &&& row.counters.ext_rx == bytes_added(additions, row.key, false, false)
        &&& row.counters.ext_tx == bytes_added(additions, row.key, true, false)
    } by {
        assert(nonzero(m).contains_key(rows[i].0) && nonzero(m)[rows[i].0] == rows[i].1@);
        lemma_counted(additions, buckets[i].key);
        lemma_gained_by_kind(additions, buckets[i].key);
    }
    assert forall|key: StatKey, tx: bool, intra: bool| #[trigger]
        bytes_added(additions, key, tx, intra) != 0 implies exists|i: int|
        0 <= i < buckets.len() && (#[trigger] buckets[i]).key == key by {
        lemma_counted(additions, key);
        lemma_gained_by_kind(additions, key);
        assert(nonzero(m).contains_key(key));
        let i = choose|i: int| 0 <= i < rows.len() && (#[trigger] rows[i]).0 == key;
        assert(buckets[i].key == key);
    }
}

proof fn lemma_gained_by_kind(additions: Seq<Addition>, key: StatKey)
    ensures
        gained(additions, key).intra_rx == bytes_added(additions, key, false, true),
        gained(additions, key).intra_tx == bytes_added(additions, key, true, true),
        gained(additions, key).ext_rx == bytes_added(additions, key, false, false),
        gained(additions, key).ext_tx == bytes_added(additions, key, true, false),
    decreases additions.len(),
{
    if additions.len() > 0 {
        lemma_gained_by_kind(additions.drop_last(), key);
    }
}

/// The counters of the bucket rows of a host on a day in Taipei, added up.
pub open spec fn host_day_sum(buckets: Seq<StatDelta>, day: Day, addr: u32) -> Tally
    decreases buckets.len(),
{
    if buckets.len() == 0 {
        Tally { intra_rx: 0, intra_tx: 0, ext_rx: 0, ext_tx: 0 }
    } else {
        let rest = host_day_sum(buckets.drop_last(), day, addr);
        let row = buckets.last();
        if row.key.addr == addr && local_day(row.key.bucket) == day {
            Tally {
                intra_rx: rest.intra_rx + row.counters.intra_rx,
                intra_tx: rest.intra_tx + row.counters.intra_tx,
                ext_rx: rest.ext_rx + row.counters.ext_rx,
                ext_tx: rest.ext_tx + row.counters.ext_tx,
            }
        } else {
            rest
        }
    }
}

/// A day row holds, counter by counter, the sums over the bucket rows of its host that fall on its day,
/// and a host with a bucket row on a day has a day row for it.
pub proof fn days_hold_what_their_buckets_hold(buckets: Seq<StatDelta>, days: Seq<DayDelta>)
    requires
        ledger::lists_all(day_rows(days), day_totals(buckets)),
    ensures
        forall|i: int|
            0 <= i < days.len() ==> {
                let sum = host_day_sum(buckets, (#[trigger] days[i]).day, days[i].addr);
                &&& days[i].counters.intra_rx == sum.intra_rx
                &&& days[i].counters.intra_tx == sum.intra_tx
                &&& days[i].counters.ext_rx == sum.ext_rx
                &&& days[i].counters.ext_tx == sum.ext_tx
            },
        forall|b: int|
            0 <= b < buckets.len() ==> has_row_for(
                days,
                local_day((#[trigger] buckets[b]).key.bucket),
                buckets[b].key.addr,
            ),
        forall|i: int, j: int|
            0 <= i < j < days.len() ==> (#[trigger] days[i]).day != (#[trigger] days[j]).day
                || days[i].addr != days[j].addr,
{
    let by_day = day_rows(days);
    let totals = day_totals(buckets);
    assert forall|i: int| 0 <= i < days.len() implies {
        let sum = host_day_sum(buckets, (#[trigger] days[i]).day, days[i].addr);
        &&& days[i].counters.intra_rx == sum.intra_rx
        &&& days[i].counters.intra_tx == sum.intra_tx
        &&& days[i].counters.ext_rx == sum.ext_rx
        &&& days[i].counters.ext_tx == sum.ext_tx
    } by {
        lemma_host_day_sum(buckets, days[i].day, days[i].addr);
        assert(totals.contains_key(by_day[i].0) && totals[by_day[i].0] == by_day[i].1@);
    }
    assert forall|b: int| 0 <= b < buckets.len() implies has_row_for(
        days,
        local_day((#[trigger] buckets[b]).key.bucket),
        buckets[b].key.addr,
    ) by {
        let key = DayKey { day: local_day(buckets[b].key.bucket), addr: buckets[b].key.addr };
        day_sums::totals_have_rows(buckets, key);
        assert(day_key(buckets[b]) == key);
        let i = choose|i: int| 0 <= i < by_day.len() && (#[trigger] by_day[i]).0 == key;
        assert(days[i].day == key.day && days[i].addr == key.addr);
    }
    assert forall|i: int, j: int| 0 <= i < j < days.len() implies (#[trigger] days[i]).day != (
    #[trigger] days[j]).day || days[i].addr != days[j].addr by {
        assert(by_day[i].0 != by_day[j].0);
    }
}

/// Whether there is a bucket row for a key.
pub open spec fn has_bucket_for(buckets: Seq<StatDelta>, key: StatKey) -> bool {
    exists|i: int| 0 <= i < buckets.len() && (#[trigger] buckets[i]).key == key
}

/// Whether there is a day row for a day and a host.
pub open spec fn has_row_for(days: Seq<DayDelta>, day: Day, addr: u32) -> bool {
    exists|i: int| 0 <= i < days.len() && (#[trigger] days[i]).day == day && days[i].addr == addr
}

proof fn lemma_host_day_sum(buckets: Seq<StatDelta>, day: Day, addr: u32)
    ensures
        ledger::tally_at(day_totals(buckets), DayKey { day, addr }) == host_day_sum(buckets, day, addr),
    decreases buckets.len(),
{
    if buckets.len() > 0 {
        lemma_host_day_sum(buckets.drop_last(), day, addr);
    }
}

/// Whether a counter can hold a number.
pub open spec fn is_countable(n: int) -> bool {
    -0x8000_0000_0000_0000 <= n <= 0x7fff_ffff_ffff_ffff
}

/// Whether the sums of a host over a day stay within what a counter holds.
pub open spec fn day_is_countable(rows: Seq<StatDelta>, day: Day, addr: u32) -> bool {
    let sum = host_day_sum(rows, day, addr);
    &&& is_countable(sum.intra_rx)
    &&& is_countable(sum.intra_tx)
    &&& is_countable(sum.ext_rx)
    &&& is_countable(sum.ext_tx)
}

/// What is counted is refused only where the sums of some of it, for a host over a day, go beyond what a
/// counter holds.
pub proof fn only_full_days_are_refused(m: Map<StatKey, Tally>)
    ensures
        days_fit(m) <==> forall|rows: Seq<StatDelta>, day: Day, addr: u32|
            ledger::lists_some(bucket_rows(rows), m) ==> #[trigger] day_is_countable(rows, day, addr),
{
    assert forall|rows: Seq<StatDelta>| all_fit(#[trigger] day_totals(rows)) == forall|
        day: Day,
        addr: u32,
    | #[trigger]
        day_is_countable(rows, day, addr) by {
        lemma_days_are_countable(rows);
    }
    if days_fit(m) {
        assert forall|rows: Seq<StatDelta>, day: Day, addr: u32|
            ledger::lists_some(bucket_rows(rows), m) implies #[trigger] day_is_countable(
            rows,
            day,
            addr,
        ) by {
            assert(all_fit(day_totals(rows)));
        }
    }
    if forall|rows: Seq<StatDelta>, day: Day, addr: u32|
        ledger::lists_some(bucket_rows(rows), m) ==> #[trigger] day_is_countable(rows, day, addr) {
        assert forall|rows: Seq<StatDelta>|
            ledger::lists_some(#[trigger] bucket_rows(rows), m) implies all_fit(day_totals(rows)) by {
            assert forall|day: Day, addr: u32| #[trigger] day_is_countable(rows, day, addr) by {}
            lemma_days_are_countable(rows);
        }
    }
}

proof fn lemma_days_are_countable(rows: Seq<StatDelta>)
    ensures
        all_fit(day_totals(rows)) == forall|day: Day, addr: u32| #[trigger]
            day_is_countable(rows, day, addr),
{
    let totals = day_totals(rows);
    if all_fit(totals) {
        assert forall|day: Day, addr: u32| #[trigger] day_is_countable(rows, day, addr) by {
            lemma_host_day_sum(rows, day, addr);
            let key = DayKey { day, addr };
            if totals.contains_key(key) {
                assert(totals[key].fits());
            }
        }
    }
    if forall|day: Day, addr: u32| #[trigger] day_is_countable(rows, day, addr) {
        assert forall|k: DayKey| #[trigger] totals.contains_key(k) implies totals[k].fits() by {
            lemma_host_day_sum(rows, k.day, k.addr);
            assert(day_is_countable(rows, k.day, k.addr));
        }
    }
}

} // verus!
