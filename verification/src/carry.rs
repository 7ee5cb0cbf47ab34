//! Statistics that have not reached the database yet, kept until they do.

use vstd::prelude::*;

use crate::aggregator::{self, Counters, DayDelta, DayKey, StatDelta, StatKey, Tally};
use crate::db::{FlushBatch, HealthRow};
use crate::ledger::{self, Ledger};
use crate::stats::Stats;

verus! {

/// From this many keys on, nothing more is taken on: what is already held is worth more than what
/// would replace it.
pub const CARRY_LIMIT: usize = 1_000_000;

/// What waits to be written.
pub struct Carry {
    pub buckets: Ledger<StatKey>,
    pub days: Ledger<DayKey>,
    pub health: Vec<HealthRow>,
    pub full: bool,
}

/// What waits to be written.
#[verifier::ext_equal]
pub struct CarryModel {
    pub buckets: Map<StatKey, Tally>,
    pub days: Map<DayKey, Tally>,
    pub health: Seq<HealthRow>,
    pub full: bool,
}

/// What became of a batch.
#[derive(Clone, Copy, Debug, PartialEq, Eq, Structural)]
pub enum Absorbed {
    /// It was added to what waits.
    Merged,
    /// It was dropped; `first` says that it is the first one to be.
    Dropped { first: bool },
}

impl View for Carry {
    type V = CarryModel;

    open spec fn view(&self) -> CarryModel {
        CarryModel {
            buckets: self.buckets@,
            days: self.days@,
            health: self.health@,
            full: self.full,
        }
    }
}

/// Rows added to a map of tallies, one after the other.
pub open spec fn merged<K>(m: Map<K, Tally>, rows: Seq<(K, Counters)>) -> Map<K, Tally>
    decreases rows.len(),
{
    if rows.len() == 0 {
        m
    } else {
        ledger::with_added(merged(m, rows.drop_last()), rows.last().0, rows.last().1@)
    }
}

/// Whether a counter can hold every sum on the way.
pub open spec fn merge_fits<K>(m: Map<K, Tally>, rows: Seq<(K, Counters)>) -> bool {
    forall|n: int|
        0 < n <= rows.len() ==> ledger::tally_at(
            #[trigger] merged(m, rows.take(n)),
            rows[n - 1].0,
        ).fits()
}

impl CarryModel {
    /// Nothing waits.
    pub open spec fn none() -> CarryModel {
        CarryModel {
            buckets: Map::empty(),
            days: Map::empty(),
            health: Seq::empty(),
            full: false,
        }
    }

    /// So much waits that nothing more is taken on.
    pub open spec fn at_limit(self) -> bool {
        self.buckets.len() >= CARRY_LIMIT || self.days.len() >= CARRY_LIMIT
    }

    /// Nothing waits.
    pub open spec fn empty(self) -> bool {
        self.buckets == Map::<StatKey, Tally>::empty() && self.days == Map::<DayKey, Tally>::empty()
            && self.health.len() == 0
    }

    /// With a batch added to it.
    pub open spec fn with(self, batch: FlushBatch) -> CarryModel {
        CarryModel {
            buckets: merged(self.buckets, aggregator::bucket_rows(batch.buckets@)),
            days: merged(self.days, aggregator::day_rows(batch.days@)),
            health: if batch.health.bucket is Some {
                self.health.push(batch.health)
            } else {
                self.health
            },
            full: self.full,
        }
    }

    /// After a batch came in: with it, or without where the limit is reached.
    pub open spec fn after(self, batch: FlushBatch) -> CarryModel {
        if self.at_limit() {
            CarryModel { full: true, ..self }
        } else {
            self.with(batch)
        }
    }

    /// Whether a counter can hold every sum that a batch makes.
    pub open spec fn accepts(self, batch: FlushBatch) -> bool {
        self.at_limit() || (merge_fits(self.buckets, aggregator::bucket_rows(batch.buckets@))
            && merge_fits(self.days, aggregator::day_rows(batch.days@)))
    }
}

/// Adds rows to a ledger, as long as a counter can hold each sum. Whether that was so to the end.
fn merge_rows<K: ledger::LedgerKey>(into: &mut Ledger<K>, rows: &Vec<(K, Counters)>) -> (r: bool)
    requires
        old(into).wf(),
    ensures
        final(into).wf(),
        r == merge_fits(old(into)@, rows@),
        r ==> final(into)@ == merged(old(into)@, rows@),
{
    let ghost before = into@;
    let mut i: usize = 0;
    assert(rows@.take(0) =~= Seq::empty());
    while i < rows.len()
        invariant
            i <= rows.len(),
            before == old(into)@,
            into.wf(),
            into@ == merged(before, rows@.take(i as int)),
            forall|n: int|
                0 < n <= i ==> ledger::tally_at(
                    #[trigger] merged(before, rows@.take(n)),
                    rows@[n - 1].0,
                ).fits(),
        decreases rows.len() - i,
    {
        let (key, counters) = rows[i];
        let ghost next = rows@.take(i + 1);
        proof {
            assert(next.drop_last() =~= rows@.take(i as int));
            assert(merged(before, next) == ledger::with_added(into@, key, counters@));
        }
        if !into.accepts(key, &counters) {
            assert(!ledger::tally_at(merged(before, rows@.take(i + 1)), rows@[i as int].0).fits());
            return false;
        }
        into.add(key, &counters);
        i += 1;
    }
    assert(rows@.take(i as int) =~= rows@);
    true
}

/// Bucket rows as keys and counters.
fn keyed_buckets(rows: &Vec<StatDelta>) -> (r: Vec<(StatKey, Counters)>)
    ensures
        r@ == aggregator::bucket_rows(rows@),
{
    let mut out: Vec<(StatKey, Counters)> = Vec::new();
    let mut i: usize = 0;
    while i < rows.len()
        invariant
            i <= rows.len(),
            out@ == aggregator::bucket_rows(rows@).take(i as int),
        decreases rows.len() - i,
    {
        out.push((rows[i].key, rows[i].counters));
        i += 1;
        assert(out@ =~= aggregator::bucket_rows(rows@).take(i as int));
    }
    assert(out@ =~= aggregator::bucket_rows(rows@));
    out
}

/// Day rows as keys and counters.
fn keyed_days(rows: &Vec<DayDelta>) -> (r: Vec<(DayKey, Counters)>)
    ensures
        r@ == aggregator::day_rows(rows@),
{
    let mut out: Vec<(DayKey, Counters)> = Vec::new();
    let mut i: usize = 0;
    while i < rows.len()
        invariant
            i <= rows.len(),
            out@ == aggregator::day_rows(rows@).take(i as int),
        decreases rows.len() - i,
    {
        out.push((DayKey { day: rows[i].day, addr: rows[i].addr }, rows[i].counters));
        i += 1;
        assert(out@ =~= aggregator::day_rows(rows@).take(i as int));
    }
    assert(out@ =~= aggregator::day_rows(rows@));
    out
}

impl Default for Carry {
    fn default() -> (r: Self)
        ensures
            r.wf(),
            r@ == CarryModel::none(),
    {
        Carry { buckets: Ledger::new(), days: Ledger::new(), health: Vec::new(), full: false }
    }
}

impl Carry {
    /// The counters are filed as they should be.
    pub open spec fn wf(&self) -> bool {
        self.buckets.wf() && self.days.wf()
    }

    /// Adds a batch to what waits, unless too much waits already.
    ///
    /// `None` where a sum is beyond what a counter can hold; the batch is then added in part.
    pub fn absorb(&mut self, batch: FlushBatch) -> (r: Option<Absorbed>)
        requires
            old(self).wf(),
        ensures
            final(self).wf(),
            r is None <==> !old(self)@.accepts(batch),
            r is Some ==> final(self)@ == old(self)@.after(batch),
            r is Some ==> r->0 == (if old(self)@.at_limit() {
                Absorbed::Dropped { first: !old(self).full }
            } else {
                Absorbed::Merged
            }),
            r matches Some(absorbed) ==> (absorbed == Absorbed::Merged <==> old(self)@.buckets.len()
                < 1_000_000 && old(self)@.days.len() < 1_000_000),
    {
        if self.buckets.len() >= CARRY_LIMIT || self.days.len() >= CARRY_LIMIT {
            let first = !self.full;
            self.full = true;
            return Some(Absorbed::Dropped { first });
        }
        let buckets = keyed_buckets(&batch.buckets);
        if !merge_rows(&mut self.buckets, &buckets) {
            return None;
        }
        let days = keyed_days(&batch.days);
        if !merge_rows(&mut self.days, &days) {
            return None;
        }
        if batch.health.bucket.is_some() {
            self.health.push(batch.health);
        }
        Some(Absorbed::Merged)
    }

    /// Whether nothing waits.
    pub fn is_empty(&self) -> (r: bool)
        requires
            self.wf(),
        ensures
            r == self@.empty(),
    {
        self.buckets.is_empty() && self.days.is_empty() && self.health.len() == 0
    }

    /// How many buckets wait.
    pub fn rows(&self) -> (r: usize)
        requires
            self.wf(),
        ensures
            r == self@.buckets.len(),
    {
        self.buckets.len()
    }

    /// What waits, in the shape in which it is written; the health rows go along separately.
    pub fn to_batch(&self) -> (r: FlushBatch)
        requires
            self.wf(),
        ensures
            ledger::lists_all(aggregator::bucket_rows(r.buckets@), self@.buckets),
            ledger::lists_all(aggregator::day_rows(r.days@), self@.days),
            r.buckets@.len() == self@.buckets.len(),
            r.health == HealthRow::blank(),
    {
        let rows = self.buckets.rows();
        let mut buckets: Vec<StatDelta> = Vec::new();
        let mut i: usize = 0;
        while i < rows.len()
            invariant
                i <= rows.len(),
                buckets@.len() == i,
                aggregator::bucket_rows(buckets@) == rows@.take(i as int),
            decreases rows.len() - i,
        {
            let (key, counters) = rows[i];
            buckets.push(StatDelta { key, counters });
            i += 1;
            assert(aggregator::bucket_rows(buckets@) =~= rows@.take(i as int));
        }
        assert(aggregator::bucket_rows(buckets@) =~= rows@);
        let days = aggregator::day_deltas(&self.days);
        FlushBatch { buckets, days, health: HealthRow::default() }
    }
}

// ── the writer ──────────────────────────────────────────────────────────────

/// Writes what waits, and keeps it where that fails.
pub struct StatWriter {
    pub carry: Carry,
}

/// What there is to write.
pub struct Pending {
    pub batch: FlushBatch,
    pub health: Vec<HealthRow>,
    /// How many buckets are among it.
    pub rows: u64,
}

/// What a batch led to.
pub struct Received {
    pub absorbed: Absorbed,
    /// What to write now, where there is something.
    pub pending: Option<Pending>,
}

impl Pending {
    /// Whether this is just what waits.
    pub open spec fn holds(&self, model: CarryModel) -> bool {
        &&& ledger::lists_all(aggregator::bucket_rows(self.batch.buckets@), model.buckets)
        &&& ledger::lists_all(aggregator::day_rows(self.batch.days@), model.days)
        &&& self.batch.health == HealthRow::blank()
        &&& self.health@ == model.health
        &&& self.rows == model.buckets.len()
    }
}

impl StatWriter {
    /// Nothing waits.
    pub fn new() -> (r: Self)
        ensures
            r.carry.wf(),
            r.carry@ == CarryModel::none(),
    {
        StatWriter { carry: Carry::default() }
    }

    /// Takes in a batch, and tells what there is to write: all that waits. The health rows leave the
    /// carry until it is known whether they have been written.
    ///
    /// `None` where a sum is beyond what a counter can hold.
    pub fn receive(&mut self, batch: FlushBatch) -> (r: Option<Received>)
        requires
            old(self).carry.wf(),
        ensures
            final(self).carry.wf(),
            r is None <==> !old(self).carry@.accepts(batch),
            r matches Some(received) ==> {
                let model = old(self).carry@.after(batch);
                &&& received.absorbed == (if old(self).carry@.at_limit() {
                    Absorbed::Dropped { first: !old(self).carry.full }
                } else {
                    Absorbed::Merged
                })
                &&& received.pending is None <==> model.empty()
                &&& received.pending matches Some(pending) ==> pending.holds(model)
                &&& received.pending matches Some(pending) ==> {
                    &&& pending.rows == pending.batch.buckets@.len()
                    &&& pending.batch.health.bucket is None
                    &&& pending.health@ == model.health
                }
                &&& final(self).carry@ == CarryModel { health: Seq::empty(), ..model }
            },
    {
        let absorbed = match self.carry.absorb(batch) {
            Some(absorbed) => absorbed,
            None => return None,
        };
        if self.carry.is_empty() {
            assert(self.carry@ =~= CarryModel { health: Seq::empty(), ..self.carry@ });
            return Some(Received { absorbed, pending: None });
        }
        let batch = self.carry.to_batch();
        let rows: u64 = self.carry.rows() as u64;
        let mut health: Vec<HealthRow> = Vec::new();
        std::mem::swap(&mut health, &mut self.carry.health);
        Some(Received { absorbed, pending: Some(Pending { batch, health, rows }) })
    }

    /// What there was to write has been written, or has not. Written, nothing waits any more; not
    /// written, the health rows join the rest again, and all of it waits for the next batch. What to
    /// add to the totals.
    pub fn settle(&mut self, pending: Pending, written: bool) -> (r: Stats)
        requires
            old(self).carry.wf(),
        ensures
            final(self).carry.wf(),
            final(self).carry@ == (if written {
                CarryModel::none()
            } else {
                CarryModel { health: pending.health@, ..old(self).carry@ }
            }),
            r == (if written {
                Stats { stat_written: pending.rows, ..Stats::zero() }
            } else {
                Stats { stat_failed: pending.rows, ..Stats::zero() }
            }),
    {
        let mut change = Stats::new();
        if written {
            change.stat_written = pending.rows;
            self.carry = Carry::default();
        } else {
            change.stat_failed = pending.rows;
            self.carry.health = pending.health;
        }
        change
    }
}

// ── what the carry keeps ────────────────────────────────────────────────────

/// A failed write loses nothing: once it is settled, the carry is as it was when the batch had come
/// in, with the batch added to it.
pub proof fn a_failed_write_loses_nothing(before: CarryModel, batch: FlushBatch, pending: Pending)
    requires
        pending.holds(before.after(batch)),
    ensures
        (CarryModel {
            health: pending.health@,
            ..(CarryModel { health: Seq::empty(), ..before.after(batch) })
        }) == before.after(batch),
{
}

/// What is counted under a key after rows have been added is what was counted before and what the
/// rows bring, and keys that no row names are left alone.
pub proof fn merging_adds_up<K>(m: Map<K, Tally>, rows: Seq<(K, Counters)>, key: K)
    ensures
        ledger::tally_at(merged(m, rows), key) == ledger::tally_at(m, key).plus(brought(rows, key)),
        (forall|i: int| 0 <= i < rows.len() ==> (#[trigger] rows[i]).0 != key) ==> {
            &&& merged(m, rows).contains_key(key) == m.contains_key(key)
            &&& brought(rows, key) == Tally::zero()
        },
    decreases rows.len(),
{
    if rows.len() > 0 {
        merging_adds_up(m, rows.drop_last(), key);
        assert(rows.last() == rows[rows.len() - 1]);
        assert forall|i: int| 0 <= i < rows.drop_last().len() implies (#[trigger] rows.drop_last()[i])
            == rows[i] by {}
    }
}

/// What rows bring for a key.
pub open spec fn brought<K>(rows: Seq<(K, Counters)>, key: K) -> Tally
    decreases rows.len(),
{
    if rows.len() == 0 {
        Tally::zero()
    } else if rows.last().0 == key {
        brought(rows.drop_last(), key).plus(rows.last().1@)
    } else {
        brought(rows.drop_last(), key)
    }
}

/// Two batches that come in one after the other, with a failed write between them, are added up as
/// if their rows had come in one batch.
pub proof fn batches_add_up<K>(
    m: Map<K, Tally>,
    first: Seq<(K, Counters)>,
    second: Seq<(K, Counters)>,
)
    ensures
        merged(merged(m, first), second) == merged(m, first + second),
    decreases second.len(),
{
    if second.len() == 0 {
        assert(first + second =~= first);
    } else {
        batches_add_up(m, first, second.drop_last());
        assert((first + second).drop_last() =~= first + second.drop_last());
        assert((first + second).last() == second.last());
    }
}

// ── over many batches ───────────────────────────────────────────────────────

/// The bucket rows of batches, one batch after the other.
pub open spec fn bucket_rows_of(batches: Seq<FlushBatch>) -> Seq<(StatKey, Counters)>
    decreases batches.len(),
{
    if batches.len() == 0 {
        Seq::empty()
    } else {
        bucket_rows_of(batches.drop_last()) + aggregator::bucket_rows(batches.last().buckets@)
    }
}

/// The day rows of batches, one batch after the other.
pub open spec fn day_rows_of(batches: Seq<FlushBatch>) -> Seq<(DayKey, Counters)>
    decreases batches.len(),
{
    if batches.len() == 0 {
        Seq::empty()
    } else {
        day_rows_of(batches.drop_last()) + aggregator::day_rows(batches.last().days@)
    }
}

/// The health rows of batches that belong to a window, in order.
pub open spec fn health_rows_of(batches: Seq<FlushBatch>) -> Seq<HealthRow>
    decreases batches.len(),
{
    if batches.len() == 0 {
        Seq::empty()
    } else if batches.last().health.bucket is Some {
        health_rows_of(batches.drop_last()).push(batches.last().health)
    } else {
        health_rows_of(batches.drop_last())
    }
}

/// What waits once batches have come in one after the other, and nothing has been written.
pub open spec fn after_all(carry: CarryModel, batches: Seq<FlushBatch>) -> CarryModel
    decreases batches.len(),
{
    if batches.len() == 0 {
        carry
    } else {
        after_all(carry, batches.drop_last()).after(batches.last())
    }
}

/// Whether the limit is not reached before any of the batches.
pub open spec fn stays_below_limit(carry: CarryModel, batches: Seq<FlushBatch>) -> bool {
    forall|n: int|
        0 <= n < batches.len() ==> !(#[trigger] after_all(carry, batches.take(n))).at_limit()
}

/// Whether rows hold one entry for each key of other rows, with the sums over these, and no others.
pub open spec fn sums_by_key<K>(rows: Seq<(K, Counters)>, of: Seq<(K, Counters)>) -> bool {
    &&& forall|i: int| 0 <= i < rows.len() ==> (#[trigger] rows[i]).1@ == brought(of, rows[i].0)
    &&& forall|i: int, j: int|
        0 <= i < j < rows.len() ==> (#[trigger] rows[i]).0 != (#[trigger] rows[j]).0
    &&& forall|key: K| #[trigger] names(rows, key) <==> names(of, key)
}

/// Whether one of the rows is for a key.
pub open spec fn names<K>(rows: Seq<(K, Counters)>, key: K) -> bool {
    exists|i: int| 0 <= i < rows.len() && (#[trigger] rows[i]).0 == key
}

/// Rows added to nothing leave an entry for each key that a row is for.
proof fn lemma_merged_names<K>(m: Map<K, Tally>, rows: Seq<(K, Counters)>, key: K)
    ensures
        merged(m, rows).contains_key(key) <==> m.contains_key(key) || names(rows, key),
    decreases rows.len(),
{
    if rows.len() > 0 {
        let less = rows.drop_last();
        lemma_merged_names(m, less, key);
        if names(less, key) {
            let i = choose|i: int| 0 <= i < less.len() && (#[trigger] less[i]).0 == key;
            assert(rows[i] == less[i]);
        }
        if rows.last().0 == key {
            assert(rows[rows.len() - 1].0 == key);
        }
        if names(rows, key) {
            let i = choose|i: int| 0 <= i < rows.len() && (#[trigger] rows[i]).0 == key;
            if i < less.len() {
                assert(less[i] == rows[i]);
            }
        }
    }
}

/// A listing of what rows add up to holds their sums.
proof fn lemma_listing_holds_sums<K>(listing: Seq<(K, Counters)>, rows: Seq<(K, Counters)>)
    requires
        ledger::lists_all(listing, merged(Map::<K, Tally>::empty(), rows)),
    ensures
        sums_by_key(listing, rows),
{
    let none = Map::<K, Tally>::empty();
    let m = merged(none, rows);
    assert forall|i: int| 0 <= i < listing.len() implies (#[trigger] listing[i]).1@ == brought(
        rows,
        listing[i].0,
    ) by {
        merging_adds_up(none, rows, listing[i].0);
        assert(m.contains_key(listing[i].0));
    }
    assert forall|key: K| #[trigger] names(listing, key) <==> names(rows, key) by {
        lemma_merged_names(none, rows, key);
        if names(listing, key) {
            let i = choose|i: int| 0 <= i < listing.len() && (#[trigger] listing[i]).0 == key;
            assert(m.contains_key(listing[i].0));
        }
        if names(rows, key) {
            assert(m.contains_key(key));
        }
    }
}

/// What waits after batches is what waited before, with all their rows added and their health rows
/// appended.
proof fn lemma_after_all(carry: CarryModel, batches: Seq<FlushBatch>)
    requires
        stays_below_limit(carry, batches),
    ensures
        after_all(carry, batches) == (CarryModel {
            buckets: merged(carry.buckets, bucket_rows_of(batches)),
            days: merged(carry.days, day_rows_of(batches)),
            health: carry.health + health_rows_of(batches),
            full: carry.full,
        }),
    decreases batches.len(),
{
    if batches.len() == 0 {
        assert(carry.health + Seq::empty() =~= carry.health);
    } else {
        let less = batches.drop_last();
        assert forall|n: int| 0 <= n < less.len() implies !(#[trigger] after_all(
            carry,
            less.take(n),
        )).at_limit() by {
            assert(less.take(n) =~= batches.take(n));
        }
        lemma_after_all(carry, less);
        assert(batches.take(batches.len() - 1) =~= less);
        batches_add_up(
            carry.buckets,
            bucket_rows_of(less),
            aggregator::bucket_rows(batches.last().buckets@),
        );
        batches_add_up(
            carry.days,
            day_rows_of(less),
            aggregator::day_rows(batches.last().days@),
        );
        assert(after_all(carry, batches).health =~= carry.health + health_rows_of(batches));
    }
}

/// However many batches have been taken in, an empty carry gives them back summed up: `out`, as
/// `to_batch` gives it, holds one row for each bucket and host that any of them had, and one for each
/// day and host, with the sums over all of them, and it is for no window of its own.
pub proof fn batches_come_out_summed_up(batches: Seq<FlushBatch>, out: FlushBatch)
    requires
        stays_below_limit(CarryModel::none(), batches),
        ledger::lists_all(
            aggregator::bucket_rows(out.buckets@),
            after_all(CarryModel::none(), batches).buckets,
        ),
        ledger::lists_all(
            aggregator::day_rows(out.days@),
            after_all(CarryModel::none(), batches).days,
        ),
        out.health == HealthRow::blank(),
    ensures
        sums_by_key(aggregator::bucket_rows(out.buckets@), bucket_rows_of(batches)),
        sums_by_key(aggregator::day_rows(out.days@), day_rows_of(batches)),
        after_all(CarryModel::none(), batches).health == health_rows_of(batches),
        out.health.bucket is None,
{
    lemma_after_all(CarryModel::none(), batches);
    lemma_listing_holds_sums(aggregator::bucket_rows(out.buckets@), bucket_rows_of(batches));
    lemma_listing_holds_sums(aggregator::day_rows(out.days@), day_rows_of(batches));
    assert(Seq::<HealthRow>::empty() + health_rows_of(batches) =~= health_rows_of(batches));
}

// ── over many writes ────────────────────────────────────────────────────────

/// One turn of the writer: a batch that came in, what there was to write then, and whether that has
/// been written.
pub struct Turn {
    pub batch: FlushBatch,
    pub pending: Option<Pending>,
    pub written: bool,
}

impl Turn {
    /// Whether `receive` can have answered like this, below the limit.
    pub open spec fn fits(self, before: CarryModel) -> bool {
        &&& !before.at_limit()
        &&& self.pending is None <==> before.after(self.batch).empty()
        &&& self.pending matches Some(pending) ==> pending.holds(before.after(self.batch))
    }

    /// What waits after the turn, as `receive` and `settle` leave it.
    pub open spec fn carry_after(self, before: CarryModel) -> CarryModel {
        if self.pending is Some && self.written {
            CarryModel::none()
        } else {
            before.after(self.batch)
        }
    }

    /// The tables after the turn: where rows have been written, each has been added to what the table
    /// held for its key.
    pub open spec fn tables_after(self, before: StatTables) -> StatTables {
        match self.pending {
            Some(pending) => if self.written {
                StatTables {
                    buckets: merged(before.buckets, aggregator::bucket_rows(pending.batch.buckets@)),
                    days: merged(before.days, aggregator::day_rows(pending.batch.days@)),
                    health: before.health + pending.health@,
                }
            } else {
                before
            },
            None => before,
        }
    }
}

/// What the tables of the statistics hold, and the health rows that have been delivered to them.
#[verifier::ext_equal]
pub struct StatTables {
    pub buckets: Map<StatKey, Tally>,
    pub days: Map<DayKey, Tally>,
    pub health: Seq<HealthRow>,
}

/// What waits after turns.
pub open spec fn carry_after_turns(turns: Seq<Turn>) -> CarryModel
    decreases turns.len(),
{
    if turns.len() == 0 {
        CarryModel::none()
    } else {
        turns.last().carry_after(carry_after_turns(turns.drop_last()))
    }
}

/// The tables after turns.
pub open spec fn tables_after_turns(tables: StatTables, turns: Seq<Turn>) -> StatTables
    decreases turns.len(),
{
    if turns.len() == 0 {
        tables
    } else {
        turns.last().tables_after(tables_after_turns(tables, turns.drop_last()))
    }
}

/// Whether each turn can have come after those before it.
pub open spec fn turns_fit(turns: Seq<Turn>) -> bool
    decreases turns.len(),
{
    turns.len() == 0 || {
        &&& turns_fit(turns.drop_last())
        &&& turns.last().fits(carry_after_turns(turns.drop_last()))
    }
}

/// The batches of turns.
pub open spec fn batches_of(turns: Seq<Turn>) -> Seq<FlushBatch> {
    Seq::new(turns.len(), |i: int| turns[i].batch)
}

/// What a listing of a map brings for a key is what the map holds for it.
proof fn lemma_listing_brings<K>(rows: Seq<(K, Counters)>, m: Map<K, Tally>, key: K)
    requires
        ledger::lists_all(rows, m),
    ensures
        brought(rows, key) == ledger::tally_at(m, key),
{
    if m.contains_key(key) {
        let i = choose|i: int| 0 <= i < rows.len() && (#[trigger] rows[i]).0 == key;
        lemma_brought_once(rows, key, i);
    } else {
        merging_adds_up(Map::<K, Tally>::empty(), rows, key);
    }
}

proof fn lemma_brought_once<K>(rows: Seq<(K, Counters)>, key: K, at: int)
    requires
        0 <= at < rows.len(),
        rows[at].0 == key,
        forall|i: int, j: int|
            0 <= i < j < rows.len() ==> (#[trigger] rows[i]).0 != (#[trigger] rows[j]).0,
    ensures
        brought(rows, key) == rows[at].1@,
    decreases rows.len(),
{
    let less = rows.drop_last();
    assert forall|i: int, j: int| 0 <= i < j < less.len() implies (#[trigger] less[i]).0 != (
    #[trigger] less[j]).0 by {
        assert(rows[i] == less[i] && rows[j] == less[j]);
    }
    if at == rows.len() - 1 {
        assert forall|i: int| 0 <= i < less.len() implies (#[trigger] less[i]).0 != key by {
            assert(rows[i] == less[i]);
            assert(rows[i].0 != rows[at].0);
        }
        merging_adds_up(Map::<K, Tally>::empty(), less, key);
    } else {
        assert(less[at] == rows[at]);
        assert(rows[at].0 != rows[rows.len() - 1].0);
        lemma_brought_once(less, key, at);
    }
}

proof fn lemma_brought_by_both<K>(first: Seq<(K, Counters)>, second: Seq<(K, Counters)>, key: K)
    ensures
        brought(first + second, key) == brought(first, key).plus(brought(second, key)),
    decreases second.len(),
{
    if second.len() == 0 {
        assert(first + second =~= first);
    } else {
        lemma_brought_by_both(first, second.drop_last(), key);
        assert((first + second).drop_last() =~= first + second.drop_last());
        assert((first + second).last() == second.last());
    }
}

/// Whether writes fail or not, nothing is lost and nothing is counted twice: at every moment, what
/// the tables hold for a key and what waits for it are together what the tables held at the start and
/// what all batches brought; and of the health rows, those delivered and those that wait are together
/// all that came, in order and each once.
pub proof fn every_batch_arrives_once(tables: StatTables, turns: Seq<Turn>, key: StatKey, day: DayKey)
    requires
        turns_fit(turns),
    ensures
        ({
            let waits = carry_after_turns(turns);
            let now = tables_after_turns(tables, turns);
            let batches = batches_of(turns);
            &&& ledger::tally_at(now.buckets, key).plus(ledger::tally_at(waits.buckets, key))
                == ledger::tally_at(tables.buckets, key).plus(brought(bucket_rows_of(batches), key))
            &&& ledger::tally_at(now.days, day).plus(ledger::tally_at(waits.days, day))
                == ledger::tally_at(tables.days, day).plus(brought(day_rows_of(batches), day))
            &&& now.health + waits.health == tables.health + health_rows_of(batches)
        }),
    decreases turns.len(),
{
    let batches = batches_of(turns);
    if turns.len() == 0 {
        assert(tables.health + Seq::empty() =~= tables.health);
    } else {
        let less = turns.drop_last();
        let turn = turns.last();
        every_batch_arrives_once(tables, less, key, day);
        assert(batches.drop_last() =~= batches_of(less));
        let before = carry_after_turns(less);
        let model = before.after(turn.batch);
        let held = tables_after_turns(tables, less);
        let now = tables_after_turns(tables, turns);
        let rows = aggregator::bucket_rows(turn.batch.buckets@);
        let days = aggregator::day_rows(turn.batch.days@);
        merging_adds_up(before.buckets, rows, key);
        merging_adds_up(before.days, days, day);
        lemma_brought_by_both(bucket_rows_of(batches.drop_last()), rows, key);
        lemma_brought_by_both(day_rows_of(batches.drop_last()), days, day);
        assert(held.health + model.health =~= tables.health + health_rows_of(batches)) by {
            if turn.batch.health.bucket is Some {
                assert(held.health + model.health =~= (held.health + before.health).push(
                    turn.batch.health,
                ));
            }
        }
        if turn.written {
            if let Some(pending) = turn.pending {
                let out = aggregator::bucket_rows(pending.batch.buckets@);
                let out_days = aggregator::day_rows(pending.batch.days@);
                merging_adds_up(held.buckets, out, key);
                merging_adds_up(held.days, out_days, day);
                lemma_listing_brings(out, model.buckets, key);
                lemma_listing_brings(out_days, model.days, day);
                assert(now.health + Seq::empty() =~= held.health + model.health);
            }
        }
    }
}

/// Once a write has gone through, the tables have grown by just what all batches so far brought, and
/// every health row of theirs that belongs to a window has been delivered.
pub proof fn a_write_catches_up(tables: StatTables, turns: Seq<Turn>, key: StatKey, day: DayKey)
    requires
        turns_fit(turns),
        turns.len() > 0,
        turns.last().pending is Some,
        turns.last().written,
    ensures
        ({
            let now = tables_after_turns(tables, turns);
            let batches = batches_of(turns);
            &&& ledger::tally_at(now.buckets, key) == ledger::tally_at(tables.buckets, key).plus(
                brought(bucket_rows_of(batches), key),
            )
            &&& ledger::tally_at(now.days, day) == ledger::tally_at(tables.days, day).plus(
                brought(day_rows_of(batches), day),
            )
            &&& now.health == tables.health + health_rows_of(batches)
        }),
{
    every_batch_arrives_once(tables, turns, key, day);
    let now = tables_after_turns(tables, turns);
    assert(now.health + Seq::empty() =~= now.health);
}

// ── counter by counter ──────────────────────────────────────────────────────

/// The counters that rows have for a key, added up.
pub open spec fn total_for<K>(rows: Seq<(K, Counters)>, key: K) -> Tally
    decreases rows.len(),
{
    if rows.len() == 0 {
        Tally { intra_rx: 0, intra_tx: 0, ext_rx: 0, ext_tx: 0 }
    } else {
        let rest = total_for(rows.drop_last(), key);
        let (named, counters) = rows.last();
        if named == key {
            Tally {
                intra_rx: rest.intra_rx + counters.intra_rx,
                intra_tx: rest.intra_tx + counters.intra_tx,
                ext_rx: rest.ext_rx + counters.ext_rx,
                ext_tx: rest.ext_tx + counters.ext_tx,
            }
        } else {
            rest
        }
    }
}

/// Whether the counters of a key, and what the first rows add to them, stay within what a counter holds.
pub open spec fn stays_countable<K>(m: Map<K, Tally>, rows: Seq<(K, Counters)>, n: int, key: K) -> bool {
    let before = ledger::tally_at(m, key);
    let more = total_for(rows.take(n), key);
    &&& aggregator::is_countable(before.intra_rx + more.intra_rx)
    &&& aggregator::is_countable(before.intra_tx + more.intra_tx)
    &&& aggregator::is_countable(before.ext_rx + more.ext_rx)
    &&& aggregator::is_countable(before.ext_tx + more.ext_tx)
}

/// Each counter of a key grows by what the rows have for that key in the same counter, and every key
/// that was there or that a row is for is there afterwards. Rows are refused only where a counter of a
/// key, with what has come up to some row, would go beyond what a counter holds.
pub proof fn rows_add_counter_by_counter<K>(m: Map<K, Tally>, rows: Seq<(K, Counters)>, key: K)
    ensures
        ({
            let before = ledger::tally_at(m, key);
            let after = ledger::tally_at(merged(m, rows), key);
            let more = total_for(rows, key);
            &&& after.intra_rx == before.intra_rx + more.intra_rx
            &&& after.intra_tx == before.intra_tx + more.intra_tx
            &&& after.ext_rx == before.ext_rx + more.ext_rx
            &&& after.ext_tx == before.ext_tx + more.ext_tx
        }),
        merged(m, rows).contains_key(key) <==> m.contains_key(key) || names(rows, key),
        merge_fits(m, rows) <==> forall|n: int|
            0 < n <= rows.len() ==> #[trigger] stays_countable(m, rows, n, rows[n - 1].0),
{
    lemma_total_for(rows, key);
    merging_adds_up(m, rows, key);
    lemma_merged_names(m, rows, key);
    assert forall|n: int| 0 < n <= rows.len() implies #[trigger] stays_countable(
        m,
        rows,
        n,
        rows[n - 1].0,
    ) == ledger::tally_at(merged(m, rows.take(n)), rows[n - 1].0).fits() by {
        lemma_total_for(rows.take(n), rows[n - 1].0);
        merging_adds_up(m, rows.take(n), rows[n - 1].0);
    }
    if merge_fits(m, rows) {
        assert forall|n: int| 0 < n <= rows.len() implies #[trigger] stays_countable(
            m,
            rows,
            n,
            rows[n - 1].0,
        ) by {
            assert(ledger::tally_at(merged(m, rows.take(n)), rows[n - 1].0).fits());
        }
    }
    if forall|n: int|
        0 < n <= rows.len() ==> #[trigger] stays_countable(m, rows, n, rows[n - 1].0) {
        assert forall|n: int| 0 < n <= rows.len() implies ledger::tally_at(
            #[trigger] merged(m, rows.take(n)),
            rows[n - 1].0,
        ).fits() by {
            assert(stays_countable(m, rows, n, rows[n - 1].0));
        }
    }
}

proof fn lemma_total_for<K>(rows: Seq<(K, Counters)>, key: K)
    ensures
        brought(rows, key) == total_for(rows, key),
    decreases rows.len(),
{
    if rows.len() > 0 {
        lemma_total_for(rows.drop_last(), key);
    }
}

/// What a batch makes of what waits. From a million buckets or days on it is dropped: nothing changes but
/// that this is noted. Below that its rows are added to what waits under their keys, and its health row
/// comes last, where it is for a window; whether something was dropped before stays as it was.
pub proof fn a_batch_is_added_or_dropped(before: CarryModel, batch: FlushBatch)
    ensures
        ({
            let after = before.after(batch);
            let rows = aggregator::bucket_rows(batch.buckets@);
            let days = aggregator::day_rows(batch.days@);
            if before.buckets.len() >= 1_000_000 || before.days.len() >= 1_000_000 {
                &&& before.accepts(batch)
                &&& after.buckets == before.buckets && after.days == before.days
                &&& after.health == before.health && after.full
            } else {
                &&& before.accepts(batch) <==> merge_fits(before.buckets, rows) && merge_fits(
                    before.days,
                    days,
                )
                &&& after.buckets == merged(before.buckets, rows)
                &&& after.days == merged(before.days, days)
                &&& batch.health.bucket is Some ==> after.health == before.health + seq![batch.health]
                &&& batch.health.bucket is None ==> after.health == before.health
                &&& after.full == before.full
            }
        }),
        forall|i: int|
            0 <= i < batch.buckets@.len() ==> ({
                let row = #[trigger] batch.buckets@[i];
                aggregator::bucket_rows(batch.buckets@)[i] == (row.key, row.counters)
            }),
        forall|i: int|
            0 <= i < batch.days@.len() ==> ({
                let row = #[trigger] batch.days@[i];
                let listed = aggregator::day_rows(batch.days@)[i];
                listed.0.day == row.day && listed.0.addr == row.addr && listed.1 == row.counters
            }),
        aggregator::bucket_rows(batch.buckets@).len() == batch.buckets@.len(),
        aggregator::day_rows(batch.days@).len() == batch.days@.len(),
{
    assert(before.health.push(batch.health) =~= before.health + seq![batch.health]);
}

} // verus!
