//! What rebuilding makes of the tables of the statistics: the tables as maps, the statements as what
//! they do to them.

use vstd::prelude::*;

use crate::aggregator::{self, DayDelta, DayKey, StatDelta, StatKey, Tally, BUCKET_SECONDS};
use crate::carry::{self, StatTables};
use crate::cidr;
use crate::db::{self, FlowRow, HealthRow, IntraCidr};
use crate::filter::Groups;
use crate::ledger;
use crate::parser::FlowRecord;
use crate::server::{self, DbSettings};
use crate::sql::{self, SqlModel, StatementModel};
use crate::time::{Day, Timestamp};
use crate::wording;

verus! {

// ── rebuilding a day ────────────────────────────────────────────────────────

/// Whether a bucket row is for a host and lies within the bounds of a day.
pub open spec fn is_of(row: StatDelta, day: Day, addr: u32) -> bool {
    row.key.addr == addr && db::day_start(day) <= row.key.bucket.secs < db::day_start(day) + 86_400
}

/// The bucket rows of a host within the bounds of a day, added up.
pub open spec fn day_sum_of(buckets: Seq<StatDelta>, day: Day, addr: u32) -> Tally
    decreases buckets.len(),
{
    if buckets.len() == 0 {
        Tally::zero()
    } else if is_of(buckets.last(), day, addr) {
        day_sum_of(buckets.drop_last(), day, addr).plus(buckets.last().counters@)
    } else {
        day_sum_of(buckets.drop_last(), day, addr)
    }
}

/// Whether a host has a bucket row within the bounds of a day.
pub open spec fn has_rows(buckets: Seq<StatDelta>, day: Day, addr: u32) -> bool {
    exists|i: int| 0 <= i < buckets.len() && is_of(#[trigger] buckets[i], day, addr)
}

/// The table of days once a day has been cleared and filled again from the bucket rows: a row for each
/// host that has bucket rows within its bounds, with their sums. Other days are as they were.
pub open spec fn rebuilt_day(
    table: Map<DayKey, Tally>,
    buckets: Seq<StatDelta>,
    day: Day,
) -> Map<DayKey, Tally> {
    Map::new(
        |k: DayKey|
            if k.day == day {
                has_rows(buckets, day, k.addr)
            } else {
                table.contains_key(k)
            },
        |k: DayKey|
            if k.day == day {
                day_sum_of(buckets, day, k.addr)
            } else {
                table[k]
            },
    )
}

/// The rows of a day.
pub open spec fn keys_of_day(table: Map<DayKey, Tally>, day: Day) -> Set<DayKey> {
    table.dom().filter(|k: DayKey| k.day == day)
}

/// The bytes of some rows, added up.
pub open spec fn bytes_under(table: Map<DayKey, Tally>, keys: Set<DayKey>) -> int
    decreases keys.len(),
{
    if keys.finite() && keys.len() > 0 {
        let key = keys.choose();
        server::bytes_in(table[key]) + bytes_under(table, keys.remove(key))
    } else {
        0
    }
}

/// The total of a day.
pub open spec fn day_bytes(table: Map<DayKey, Tally>, day: Day) -> int {
    bytes_under(table, keys_of_day(table, day))
}

/// Rebuilding a day leaves other days alone, and doing it again changes nothing: the table stays as it
/// is, with the same rows, and the total of the day does not move.
pub proof fn rebuilding_a_day_again_changes_nothing(
    table: Map<DayKey, Tally>,
    buckets: Seq<StatDelta>,
    day: Day,
)
    ensures
        ({
            let once = rebuilt_day(table, buckets, day);
            let twice = rebuilt_day(once, buckets, day);
            &&& twice == once
            &&& keys_of_day(twice, day) == keys_of_day(once, day)
            &&& day_bytes(twice, day) - day_bytes(once, day) == 0
            &&& forall|k: DayKey|
                k.day != day ==> #[trigger] once.contains_key(k) == table.contains_key(k)
            &&& forall|k: DayKey|
                k.day != day && #[trigger] once.contains_key(k) ==> once[k] == table[k]
        }),
{
    let once = rebuilt_day(table, buckets, day);
    let twice = rebuilt_day(once, buckets, day);
    assert(twice =~= once);
}

/// A day that has been rebuilt holds just what adding up its bucket rows as they came gives.
pub proof fn rebuilding_a_day_gives_its_totals(
    table: Map<DayKey, Tally>,
    buckets: Seq<StatDelta>,
    day: Day,
    addr: u32,
)
    requires
        db::has_bounds(day),
        forall|i: int|
            0 <= i < buckets.len() ==> aggregator::has_local_day((#[trigger] buckets[i]).key.bucket),
    ensures
        ({
            let key = DayKey { day, addr };
            let rebuilt = rebuilt_day(table, buckets, day);
            let totals = aggregator::day_totals(buckets);
            &&& rebuilt.contains_key(key) == totals.contains_key(key)
            &&& ledger::tally_at(rebuilt, key) == ledger::tally_at(totals, key)
        }),
{
    lemma_day_sum(buckets, day, addr);
}

proof fn lemma_day_sum(buckets: Seq<StatDelta>, day: Day, addr: u32)
    requires
        db::has_bounds(day),
        forall|i: int|
            0 <= i < buckets.len() ==> aggregator::has_local_day((#[trigger] buckets[i]).key.bucket),
    ensures
        ({
            let key = DayKey { day, addr };
            let totals = aggregator::day_totals(buckets);
            &&& has_rows(buckets, day, addr) == totals.contains_key(key)
            &&& day_sum_of(buckets, day, addr) == ledger::tally_at(totals, key)
        }),
    decreases buckets.len(),
{
    if buckets.len() > 0 {
        let less = buckets.drop_last();
        let last = buckets.len() - 1;
        assert(buckets[last] == buckets.last());
        assert forall|i: int| 0 <= i < less.len() implies aggregator::has_local_day(
            (#[trigger] less[i]).key.bucket,
        ) by {
            assert(buckets[i] == less[i]);
        }
        lemma_day_sum(less, day, addr);
        db::bounds_hold_the_day(day, buckets.last().key.bucket);
        if has_rows(less, day, addr) {
            let i = choose|i: int| 0 <= i < less.len() && is_of(#[trigger] less[i], day, addr);
            assert(is_of(buckets[i], day, addr));
        }
        if has_rows(buckets, day, addr) {
            let i = choose|i: int| 0 <= i < buckets.len() && is_of(#[trigger] buckets[i], day, addr);
            if i < last {
                assert(is_of(less[i], day, addr));
            }
        }
        if is_of(buckets.last(), day, addr) {
            assert(is_of(buckets[last], day, addr));
        }
    }
}

// ── rebuilding buckets ──────────────────────────────────────────────────────

/// The bytes that a raw row stands for.
pub open spec fn raw_bytes(row: FlowRow) -> int {
    row.bytes * row.sampling_interval
}

/// What the sender's counters of a raw row are kept by.
pub open spec fn raw_src_key(row: FlowRow) -> StatKey {
    StatKey { bucket: aggregator::bucket(row.ts), addr: row.src_addr }
}

/// What the receiver's counters of a raw row are kept by.
pub open spec fn raw_dst_key(row: FlowRow) -> StatKey {
    StatKey { bucket: aggregator::bucket(row.ts), addr: row.dst_addr }
}

/// What a raw row adds to the sender's counters.
pub open spec fn raw_src_gain(row: FlowRow, intra: IntraCidr) -> Tally {
    aggregator::sent(cidr::in_network(intra.network, intra.mask, row.dst_addr), raw_bytes(row))
}

/// What a raw row adds to the receiver's counters.
pub open spec fn raw_dst_gain(row: FlowRow, intra: IntraCidr) -> Tally {
    aggregator::received(cidr::in_network(intra.network, intra.mask, row.src_addr), raw_bytes(row))
}

/// The buckets once a raw row has been counted: as sent, where its sender is one of the senders, and
/// as received, where its receiver is one of the receivers.
pub open spec fn with_raw_row(
    m: Map<StatKey, Tally>,
    row: FlowRow,
    senders: Set<u32>,
    receivers: Set<u32>,
    intra: IntraCidr,
) -> Map<StatKey, Tally> {
    let half = if senders.contains(row.src_addr) {
        ledger::with_added(m, raw_src_key(row), raw_src_gain(row, intra))
    } else {
        m
    };
    if receivers.contains(row.dst_addr) {
        ledger::with_added(half, raw_dst_key(row), raw_dst_gain(row, intra))
    } else {
        half
    }
}

/// The buckets that raw rows make.
pub open spec fn rebuilt_buckets(
    rows: Seq<FlowRow>,
    senders: Set<u32>,
    receivers: Set<u32>,
    intra: IntraCidr,
) -> Map<StatKey, Tally>
    decreases rows.len(),
{
    if rows.len() == 0 {
        Map::empty()
    } else {
        with_raw_row(
            rebuilt_buckets(rows.drop_last(), senders, receivers, intra),
            rows.last(),
            senders,
            receivers,
            intra,
        )
    }
}

/// Flows that came in together, and when.
pub struct Arrival {
    pub received_at: Timestamp,
    pub flows: Seq<FlowRecord>,
}

/// What has been counted from nothing once flows have come in.
pub open spec fn live_buckets(arrivals: Seq<Arrival>, filter: Groups, db: DbSettings) -> Map<
    StatKey,
    Tally,
>
    decreases arrivals.len(),
{
    if arrivals.len() == 0 {
        Map::empty()
    } else {
        server::with_flows(
            live_buckets(arrivals.drop_last(), filter, db),
            filter,
            arrivals.last().received_at,
            server::matching(filter, arrivals.last().flows),
            db,
        )
    }
}

/// The raw rows that have been stored once flows have come in.
pub open spec fn raw_rows_of(arrivals: Seq<Arrival>, filter: Groups, db: DbSettings) -> Seq<FlowRow>
    decreases arrivals.len(),
{
    if arrivals.len() == 0 {
        Seq::empty()
    } else {
        raw_rows_of(arrivals.drop_last(), filter, db) + server::stored_rows(
            arrivals.last().received_at,
            server::matching(filter, arrivals.last().flows),
            db,
        )
    }
}

/// What is counted as flows come in can be derived from the raw rows: rebuilding the buckets from them,
/// with the addresses that the filter matches as senders and as receivers, gives just what has been
/// counted.
pub proof fn the_raw_rows_give_what_was_counted(
    arrivals: Seq<Arrival>,
    filter: Groups,
    db: DbSettings,
    senders: Set<u32>,
    receivers: Set<u32>,
)
    requires
        forall|ip: u32| #[trigger] senders.contains(ip) <==> filter.src_matches(ip),
        forall|ip: u32| #[trigger] receivers.contains(ip) <==> filter.dst_matches(ip),
    ensures
        rebuilt_buckets(raw_rows_of(arrivals, filter, db), senders, receivers, db.intra)
            == live_buckets(arrivals, filter, db),
    decreases arrivals.len(),
{
    if arrivals.len() > 0 {
        let less = arrivals.drop_last();
        let last = arrivals.last();
        the_raw_rows_give_what_was_counted(less, filter, db, senders, receivers);
        lemma_more_rows(
            raw_rows_of(less, filter, db),
            filter,
            last.received_at,
            server::matching(filter, last.flows),
            db,
            senders,
            receivers,
        );
    }
}

proof fn lemma_more_rows(
    rows: Seq<FlowRow>,
    filter: Groups,
    received_at: Timestamp,
    flows: Seq<FlowRecord>,
    db: DbSettings,
    senders: Set<u32>,
    receivers: Set<u32>,
)
    requires
        forall|ip: u32| #[trigger] senders.contains(ip) <==> filter.src_matches(ip),
        forall|ip: u32| #[trigger] receivers.contains(ip) <==> filter.dst_matches(ip),
    ensures
        rebuilt_buckets(
            rows + server::stored_rows(received_at, flows, db),
            senders,
            receivers,
            db.intra,
        ) == server::with_flows(
            rebuilt_buckets(rows, senders, receivers, db.intra),
            filter,
            received_at,
            flows,
            db,
        ),
    decreases flows.len(),
{
    let more = server::stored_rows(received_at, flows, db);
    if flows.len() == 0 {
        assert(rows + more =~= rows);
    } else {
        let less = server::stored_rows(received_at, flows.drop_last(), db);
        lemma_more_rows(rows, filter, received_at, flows.drop_last(), db, senders, receivers);
        assert((rows + more).drop_last() =~= rows + less);
        assert((rows + more).last() == server::row_of(received_at, flows.last(), db));
    }
}

/// Whether a raw row is within a range.
pub open spec fn is_within(row: FlowRow, from: Timestamp, to: Timestamp) -> bool {
    !row.ts.before(from) && row.ts.before(to)
}

/// The raw rows within a range.
pub open spec fn rows_within(rows: Seq<FlowRow>, from: Timestamp, to: Timestamp) -> Seq<FlowRow>
    decreases rows.len(),
{
    if rows.len() == 0 {
        Seq::empty()
    } else if is_within(rows.last(), from, to) {
        rows_within(rows.drop_last(), from, to).push(rows.last())
    } else {
        rows_within(rows.drop_last(), from, to)
    }
}

/// Whether an instant is the start of a bucket.
pub open spec fn starts_bucket(at: Timestamp) -> bool {
    at.secs as int % BUCKET_SECONDS as int == 0 && at.nanos == 0
}

/// Where a range starts and ends with a bucket, its raw rows make the buckets within it whole, and no
/// others.
pub proof fn no_bucket_is_rebuilt_by_half(
    rows: Seq<FlowRow>,
    from: Timestamp,
    to: Timestamp,
    senders: Set<u32>,
    receivers: Set<u32>,
    intra: IntraCidr,
    key: StatKey,
)
    requires
        starts_bucket(from),
        starts_bucket(to),
        forall|i: int| 0 <= i < rows.len() ==> (#[trigger] rows[i]).ts.valid(),
    ensures
        ({
            let all = rebuilt_buckets(rows, senders, receivers, intra);
            let some = rebuilt_buckets(rows_within(rows, from, to), senders, receivers, intra);
            if from.secs <= key.bucket.secs < to.secs {
                &&& some.contains_key(key) == all.contains_key(key)
                &&& ledger::tally_at(some, key) == ledger::tally_at(all, key)
            } else {
                !some.contains_key(key)
            }
        }),
    decreases rows.len(),
{
    if rows.len() > 0 {
        let less = rows.drop_last();
        let row = rows.last();
        assert(rows[rows.len() - 1] == row);
        assert forall|i: int| 0 <= i < less.len() implies (#[trigger] less[i]).ts.valid() by {
            assert(rows[i] == less[i]);
        }
        no_bucket_is_rebuilt_by_half(less, from, to, senders, receivers, intra, key);
        let start = aggregator::bucket(row.ts);
        assert(start.secs as int % BUCKET_SECONDS as int == 0 && start.secs <= row.ts.secs
            < start.secs + BUCKET_SECONDS);
        assert(is_within(row, from, to) == (from.secs <= start.secs < to.secs));
        if is_within(row, from, to) {
            let kept = rows_within(less, from, to);
            assert(kept.push(row).drop_last() =~= kept);
            assert(kept.push(row).last() == row);
        }
    }
}

/// Whether the bucket row of a key is cleared before a range is filled again: it has to lie within the
/// range, and its host has to be one of the senders or of the receivers.
pub open spec fn is_cleared(
    key: StatKey,
    from: Timestamp,
    to: Timestamp,
    senders: Set<u32>,
    receivers: Set<u32>,
) -> bool {
    &&& !key.bucket.before(from) && key.bucket.before(to)
    &&& senders.contains(key.addr) || receivers.contains(key.addr)
}

/// The table of buckets once a range has been cleared and the rows that its raw rows make have been put
/// in.
pub open spec fn rebuilt_range(
    table: Map<StatKey, Tally>,
    rows: Seq<FlowRow>,
    from: Timestamp,
    to: Timestamp,
    senders: Set<u32>,
    receivers: Set<u32>,
    intra: IntraCidr,
) -> Map<StatKey, Tally> {
    let left = table.remove_keys(
        Set::new(|key: StatKey| is_cleared(key, from, to, senders, receivers)),
    );
    left.union_prefer_right(
        rebuilt_buckets(rows_within(rows, from, to), senders, receivers, intra),
    )
}

/// Rebuilding a range of whole buckets touches nothing that it does not fill again: a key outside the
/// range, or of a host that is neither a sender nor a receiver, keeps what it has, row or none. Every
/// other key has what the raw rows of the range make, row or none. What is put in meets no row that was
/// left. Doing it again changes nothing.
pub proof fn rebuilding_a_range_keeps_to_it(
    table: Map<StatKey, Tally>,
    rows: Seq<FlowRow>,
    from: Timestamp,
    to: Timestamp,
    senders: Set<u32>,
    receivers: Set<u32>,
    intra: IntraCidr,
)
    requires
        starts_bucket(from),
        starts_bucket(to),
        forall|i: int| 0 <= i < rows.len() ==> (#[trigger] rows[i]).ts.valid(),
    ensures
        ({
            let made = rebuilt_buckets(rows_within(rows, from, to), senders, receivers, intra);
            let once = rebuilt_range(table, rows, from, to, senders, receivers, intra);
            let twice = rebuilt_range(once, rows, from, to, senders, receivers, intra);
            &&& forall|key: StatKey|
                #![trigger once.contains_key(key)]
                #![trigger once[key]]
                if is_cleared(key, from, to, senders, receivers) {
                    &&& once.contains_key(key) == made.contains_key(key)
                    &&& made.contains_key(key) ==> once[key] == made[key]
                } else {
                    &&& once.contains_key(key) == table.contains_key(key)
                    &&& table.contains_key(key) ==> once[key] == table[key]
                    &&& !made.contains_key(key)
                }
            &&& twice == once
        }),
{
    let within = rows_within(rows, from, to);
    let made = rebuilt_buckets(within, senders, receivers, intra);
    let once = rebuilt_range(table, rows, from, to, senders, receivers, intra);
    let twice = rebuilt_range(once, rows, from, to, senders, receivers, intra);
    assert forall|key: StatKey| #[trigger] made.contains_key(key) implies is_cleared(
        key,
        from,
        to,
        senders,
        receivers,
    ) by {
        no_bucket_is_rebuilt_by_half(rows, from, to, senders, receivers, intra, key);
        lemma_rebuilt_hosts(within, senders, receivers, intra, key);
    }
    assert forall|key: StatKey| #[trigger] once.contains_key(key) <==> made.contains_key(key) || (
    table.contains_key(key) && !is_cleared(key, from, to, senders, receivers)) by {}
    assert(twice =~= once);
}

/// Only hosts that are senders or receivers have a row.
proof fn lemma_rebuilt_hosts(
    rows: Seq<FlowRow>,
    senders: Set<u32>,
    receivers: Set<u32>,
    intra: IntraCidr,
    key: StatKey,
)
    ensures
        rebuilt_buckets(rows, senders, receivers, intra).contains_key(key) ==> senders.contains(
            key.addr,
        ) || receivers.contains(key.addr),
    decreases rows.len(),
{
    if rows.len() > 0 {
        lemma_rebuilt_hosts(rows.drop_last(), senders, receivers, intra, key);
    }
}

// ── what the counters of rebuilt buckets are ────────────────────────────────

/// The bytes that raw rows bring a key of one kind: sent or received, with the other end inside the
/// intranet or outside it. Sent ones count for the sender of a row, where that is one of the senders;
/// received ones for its receiver, where that is one of the receivers.
pub open spec fn raw_total(
    rows: Seq<FlowRow>,
    key: StatKey,
    hosts: Set<u32>,
    intra: IntraCidr,
    tx: bool,
    inside: bool,
) -> int
    decreases rows.len(),
{
    if rows.len() == 0 {
        0
    } else {
        let row = rows.last();
        let (host, other) = if tx {
            (row.src_addr, row.dst_addr)
        } else {
            (row.dst_addr, row.src_addr)
        };
        raw_total(rows.drop_last(), key, hosts, intra, tx, inside) + if host == key.addr
            && hosts.contains(host) && key.bucket.nanos == 0 && key.bucket.secs as int % 300 == 0
            && key.bucket.secs <= row.ts.secs < key.bucket.secs + 300 && (other & intra.mask
            == intra.network) == inside {
            row.bytes * row.sampling_interval
        } else {
            0
        }
    }
}

/// Each counter of a rebuilt bucket is the sum of the raw rows of its kind.
pub proof fn rebuilt_counters_are_sums_of_their_kind(
    rows: Seq<FlowRow>,
    senders: Set<u32>,
    receivers: Set<u32>,
    intra: IntraCidr,
    key: StatKey,
)
    requires
        forall|i: int| 0 <= i < rows.len() ==> (#[trigger] rows[i]).ts.valid(),
    ensures
        ({
            let made = ledger::tally_at(rebuilt_buckets(rows, senders, receivers, intra), key);
            &&& made.intra_tx == raw_total(rows, key, senders, intra, true, true)
            &&& made.ext_tx == raw_total(rows, key, senders, intra, true, false)
            &&& made.intra_rx == raw_total(rows, key, receivers, intra, false, true)
            &&& made.ext_rx == raw_total(rows, key, receivers, intra, false, false)
        }),
    decreases rows.len(),
{
    if rows.len() > 0 {
        let less = rows.drop_last();
        let row = rows.last();
        assert(rows[rows.len() - 1] == row);
        assert forall|i: int| 0 <= i < less.len() implies (#[trigger] less[i]).ts.valid() by {
            assert(rows[i] == less[i]);
        }
        rebuilt_counters_are_sums_of_their_kind(less, senders, receivers, intra, key);
        let start = aggregator::bucket(row.ts);
        assert(start.nanos == 0 && start.secs as int % 300 == 0 && start.secs <= row.ts.secs
            < start.secs + 300);
        assert((start == key.bucket) == (key.bucket.nanos == 0 && key.bucket.secs as int % 300 == 0
            && key.bucket.secs <= row.ts.secs < key.bucket.secs + 300));
    }
}

// ── running the statements ──────────────────────────────────────────────────

/// The tables that the statements which rebuild a range work on.
pub struct Tables {
    pub raw: Seq<FlowRow>,
    pub buckets: Map<StatKey, Tally>,
    pub senders: Set<u32>,
    pub receivers: Set<u32>,
}

/// The addresses that a parameter names.
pub open spec fn named(param: SqlModel) -> Set<u32> {
    match param {
        SqlModel::Addresses(list) => list.to_set(),
        _ => Set::empty(),
    }
}

/// The tables once a statement has been run on them, by its text and what its placeholders stand for.
pub open spec fn after(t: Tables, step: StatementModel) -> Tables {
    if step.sql == "INSERT INTO filter_senders (addr) SELECT unnest($1::inet[])"@ {
        Tables { senders: named(step.params[0]), ..t }
    } else if step.sql == "INSERT INTO filter_receivers (addr) SELECT unnest($1::inet[])"@ {
        Tables { receivers: named(step.params[0]), ..t }
    } else if step.sql == "DELETE FROM flow_stat_5m WHERE bucket >= $1 AND bucket < $2 \
            AND addr IN (SELECT addr FROM filter_senders UNION SELECT addr FROM filter_receivers)"@ {
        match (step.params[0], step.params[1]) {
            (SqlModel::Instant(from), SqlModel::Instant(to)) => Tables {
                buckets: t.buckets.remove_keys(
                    Set::new(|key: StatKey| is_cleared(key, from, to, t.senders, t.receivers)),
                ),
                ..t
            },
            _ => t,
        }
    } else if step.sql == sql::rebuild_sql() {
        match (step.params[0], step.params[1], step.params[2]) {
            (
                SqlModel::Instant(from),
                SqlModel::Instant(to),
                SqlModel::Text(cidr),
            ) => match db::network_of(cidr) {
                Ok((network, mask)) => Tables {
                    buckets: t.buckets.union_prefer_right(
                        rebuilt_buckets(
                            rows_within(t.raw, from, to),
                            t.senders,
                            t.receivers,
                            IntraCidr { network, mask },
                        ),
                    ),
                    ..t
                },
                Err(_) => t,
            },
            _ => t,
        }
    } else {
        t
    }
}

/// The tables once statements have been run on them, one after the other.
pub open spec fn after_all(t: Tables, steps: Seq<StatementModel>) -> Tables
    decreases steps.len(),
{
    if steps.len() == 0 {
        t
    } else {
        after(after_all(t, steps.drop_last()), steps.last())
    }
}

/// Running the statements that rebuild a range rebuilds that range, whatever the tables hold, and
/// leaves the raw rows alone.
pub proof fn running_a_rebuild_rebuilds_its_range(
    t: Tables,
    steps: Seq<StatementModel>,
    from: Timestamp,
    to: Timestamp,
    cidr: Seq<char>,
    senders: Set<u32>,
    receivers: Set<u32>,
    intra: IntraCidr,
)
    requires
        sql::rebuilds(steps, from, to, cidr, senders, receivers),
        db::network_of(cidr) == Ok::<(u32, u32), db::CidrError>((intra.network, intra.mask)),
    ensures
        after_all(t, steps).buckets == rebuilt_range(
            t.buckets,
            t.raw,
            from,
            to,
            senders,
            receivers,
            intra,
        ),
        after_all(t, steps).raw == t.raw,
{
    sql::a_rebuild_clears_and_fills_one_range(steps, from, to, cidr, senders, receivers);
    lemma_texts_differ(steps, from, to, cidr, senders, receivers);
    assert(named(steps[2].params[0]) =~= senders);
    assert(named(steps[3].params[0]) =~= receivers);
    assert(steps.take(0) =~= Seq::empty());
    lemma_step(t, steps, 0);
    lemma_step(t, steps, 1);
    lemma_step(t, steps, 2);
    lemma_step(t, steps, 3);
    lemma_step(t, steps, 4);
    lemma_step(t, steps, 5);
    lemma_step(t, steps, 6);
    lemma_step(t, steps, 7);
    assert(steps.take(8) =~= steps);
    let filled = after_all(t, steps.take(6));
    assert(filled == (Tables { senders, receivers, ..t }));
}

proof fn lemma_step(t: Tables, steps: Seq<StatementModel>, i: int)
    requires
        0 <= i < steps.len(),
    ensures
        after_all(t, steps.take(i + 1)) == after(after_all(t, steps.take(i)), steps[i]),
{
    assert(steps.take(i + 1).drop_last() =~= steps.take(i));
    assert(steps.take(i + 1).last() == steps[i]);
}

/// The statements that rebuild a range can be told apart by their texts.
proof fn lemma_texts_differ(
    steps: Seq<StatementModel>,
    from: Timestamp,
    to: Timestamp,
    cidr: Seq<char>,
    senders: Set<u32>,
    receivers: Set<u32>,
)
    requires
        sql::rebuilds(steps, from, to, cidr, senders, receivers),
    ensures
        forall|t: Tables| #[trigger] after(t, steps[0]) == t,
        forall|t: Tables| #[trigger] after(t, steps[1]) == t,
        forall|t: Tables| #[trigger] after(t, steps[4]) == t,
        forall|t: Tables| #[trigger] after(t, steps[5]) == t,
        steps[3].sql != steps[2].sql,
        steps[6].sql != steps[2].sql && steps[6].sql != steps[3].sql,
        steps[7].sql != steps[2].sql && steps[7].sql != steps[3].sql && steps[7].sql != steps[6].sql,
{
    reveal_strlit("CREATE TEMP TABLE filter_senders (addr inet PRIMARY KEY) ON COMMIT DROP");
    reveal_strlit("CREATE TEMP TABLE filter_receivers (addr inet PRIMARY KEY) ON COMMIT DROP");
    reveal_strlit("INSERT INTO filter_senders (addr) SELECT unnest($1::inet[])");
    reveal_strlit("INSERT INTO filter_receivers (addr) SELECT unnest($1::inet[])");
    reveal_strlit("ANALYZE filter_senders");
    reveal_strlit("ANALYZE filter_receivers");
    reveal_strlit(
        "DELETE FROM flow_stat_5m WHERE bucket >= $1 AND bucket < $2 \
            AND addr IN (SELECT addr FROM filter_senders UNION SELECT addr FROM filter_receivers)",
    );
    reveal_strlit(
        "INSERT INTO flow_stat_5m (bucket, addr, intra_rx_bytes, intra_tx_bytes, ext_rx_bytes, \
            ext_tx_bytes) SELECT bucket, addr, SUM(irxb), SUM(itxb), SUM(erxb), SUM(etxb) FROM ( \
            SELECT time_bucket(make_interval(secs => ",
    );
    assert(steps[0].sql[0] == 'C' && steps[1].sql[0] == 'C');
    assert(steps[2].sql[0] == 'I' && steps[2].sql[13] == 'i' && steps[2].sql[19] == 's');
    assert(steps[3].sql[0] == 'I' && steps[3].sql[13] == 'i' && steps[3].sql[19] == 'r');
    assert(steps[4].sql[0] == 'A' && steps[5].sql[0] == 'A');
    assert(steps[6].sql[0] == 'D');
    assert(sql::REBUILD_START@[0] == 'I' && sql::REBUILD_START@[13] == 'l');
    assert(steps[7].sql[0] == 'I' && steps[7].sql[13] == 'l');
}

/// The table of days once a statement that rebuilds a day has been run on it.
pub open spec fn day_after(
    table: Map<DayKey, Tally>,
    buckets: Seq<StatDelta>,
    step: StatementModel,
) -> Map<DayKey, Tally> {
    if step.sql == "DELETE FROM flow_stat_1d WHERE day = $1"@ {
        match step.params[0] {
            SqlModel::Date(day) => table.remove_keys(Set::new(|k: DayKey| k.day == day)),
            _ => table,
        }
    } else {
        match (step.params[0], step.params[1], step.params[2]) {
            (
                SqlModel::Date(day),
                SqlModel::Instant(from),
                SqlModel::Instant(to),
            ) => table.union_prefer_right(
                Map::new(
                    |k: DayKey| k.day == day && has_rows_between(buckets, from, to, k.addr),
                    |k: DayKey| sum_between(buckets, from, to, k.addr),
                ),
            ),
            _ => table,
        }
    }
}

/// Whether a bucket row is for a host and within a range.
pub open spec fn is_between(row: StatDelta, from: Timestamp, to: Timestamp, addr: u32) -> bool {
    row.key.addr == addr && !row.key.bucket.before(from) && row.key.bucket.before(to)
}

/// Whether a host has a bucket row within a range.
pub open spec fn has_rows_between(
    buckets: Seq<StatDelta>,
    from: Timestamp,
    to: Timestamp,
    addr: u32,
) -> bool {
    exists|i: int| 0 <= i < buckets.len() && is_between(#[trigger] buckets[i], from, to, addr)
}

/// The bucket rows of a host within a range, added up counter by counter.
pub open spec fn sum_between(
    buckets: Seq<StatDelta>,
    from: Timestamp,
    to: Timestamp,
    addr: u32,
) -> Tally
    decreases buckets.len(),
{
    if buckets.len() == 0 {
        Tally { intra_rx: 0, intra_tx: 0, ext_rx: 0, ext_tx: 0 }
    } else {
        let rest = sum_between(buckets.drop_last(), from, to, addr);
        let row = buckets.last();
        if is_between(row, from, to, addr) {
            Tally {
                intra_rx: rest.intra_rx + row.counters.intra_rx,
                intra_tx: rest.intra_tx + row.counters.intra_tx,
                ext_rx: rest.ext_rx + row.counters.ext_rx,
                ext_tx: rest.ext_tx + row.counters.ext_tx,
            }
        } else {
            rest
        }
    }
}

/// Running the statement that clears a day and then the one that fills it rebuilds that day, where the
/// one that fills it looks between the two midnights in Taipei.
pub proof fn running_a_day_rebuilds_it(
    table: Map<DayKey, Tally>,
    buckets: Seq<StatDelta>,
    day: Day,
    clear: StatementModel,
    fill: StatementModel,
    from: Timestamp,
    to: Timestamp,
)
    requires
        clear.sql == "DELETE FROM flow_stat_1d WHERE day = $1"@,
        clear.params == seq![SqlModel::Date(day)],
        fill.sql == sql::DAY_ROLLUP@,
        fill.params == seq![SqlModel::Date(day), SqlModel::Instant(from), SqlModel::Instant(to)],
        from.nanos == 0 && to.nanos == 0,
        from.secs + 28_800 == (day.number - 719_163) * 86_400,
        to.secs == from.secs + 86_400,
    ensures
        day_after(day_after(table, buckets, clear), buckets, fill) == rebuilt_day(
            table,
            buckets,
            day,
        ),
{
    reveal_strlit("DELETE FROM flow_stat_1d WHERE day = $1");
    reveal_strlit(
        "INSERT INTO flow_stat_1d \
    (day, addr, intra_rx_bytes, intra_tx_bytes, ext_rx_bytes, ext_tx_bytes) \
    SELECT $1::date, addr, \
    SUM(intra_rx_bytes), SUM(intra_tx_bytes), \
    SUM(ext_rx_bytes),   SUM(ext_tx_bytes) \
    FROM flow_stat_5m \
    WHERE bucket >= $2 AND bucket < $3 \
    GROUP BY addr",
    );
    assert(clear.sql[0] == 'D' && fill.sql[0] == 'I');
    assert forall|addr: u32|
        #![trigger has_rows(buckets, day, addr)]
        #![trigger day_sum_of(buckets, day, addr)]
        has_rows(buckets, day, addr) == has_rows_between(buckets, from, to, addr) && day_sum_of(
            buckets,
            day,
            addr,
        ) == sum_between(buckets, from, to, addr) by {
        assert forall|i: int| 0 <= i < buckets.len() implies is_of(#[trigger] buckets[i], day, addr)
            == is_between(buckets[i], from, to, addr) by {}
        lemma_sum_between(buckets, day, from, to, addr);
        if has_rows(buckets, day, addr) {
            let i = choose|i: int| 0 <= i < buckets.len() && is_of(#[trigger] buckets[i], day, addr);
            assert(is_between(buckets[i], from, to, addr));
        }
        if has_rows_between(buckets, from, to, addr) {
            let i = choose|i: int|
                0 <= i < buckets.len() && is_between(#[trigger] buckets[i], from, to, addr);
            assert(is_of(buckets[i], day, addr));
        }
    }
    assert(day_after(day_after(table, buckets, clear), buckets, fill) =~= rebuilt_day(
        table,
        buckets,
        day,
    ));
}

proof fn lemma_sum_between(
    buckets: Seq<StatDelta>,
    day: Day,
    from: Timestamp,
    to: Timestamp,
    addr: u32,
)
    requires
        from.nanos == 0 && to.nanos == 0,
        from.secs + 28_800 == (day.number - 719_163) * 86_400,
        to.secs == from.secs + 86_400,
    ensures
        day_sum_of(buckets, day, addr) == sum_between(buckets, from, to, addr),
    decreases buckets.len(),
{
    if buckets.len() > 0 {
        lemma_sum_between(buckets.drop_last(), day, from, to, addr);
        assert(is_of(buckets.last(), day, addr) == is_between(buckets.last(), from, to, addr));
    }
}

// ── running the statements that add rows ────────────────────────────────────

/// The table of buckets once the first rows of a statement have been added to it, by what its placeholders
/// stand for.
pub open spec fn buckets_grown(
    table: Map<StatKey, Tally>,
    params: Seq<SqlModel>,
    rows: nat,
) -> Map<StatKey, Tally>
    decreases rows,
{
    if rows == 0 {
        table
    } else {
        let before = buckets_grown(table, params, (rows - 1) as nat);
        let at = 6 * (rows - 1);
        match (
            params[at],
            params[at + 1],
            params[at + 2],
            params[at + 3],
            params[at + 4],
            params[at + 5],
        ) {
            (
                SqlModel::Instant(first),
                SqlModel::Address(addr),
                SqlModel::Int8(intra_rx),
                SqlModel::Int8(intra_tx),
                SqlModel::Int8(ext_rx),
                SqlModel::Int8(ext_tx),
            ) => {
                let key = StatKey { bucket: first, addr };
                let held = ledger::tally_at(before, key);
                before.insert(
                    key,
                    Tally {
                        intra_rx: held.intra_rx + intra_rx,
                        intra_tx: held.intra_tx + intra_tx,
                        ext_rx: held.ext_rx + ext_rx,
                        ext_tx: held.ext_tx + ext_tx,
                    },
                )
            },
            _ => before,
        }
    }
}

proof fn lemma_buckets_grown(table: Map<StatKey, Tally>, rows: Seq<StatDelta>, n: nat)
    requires
        n <= rows.len(),
    ensures
        sql::bucket_upsert(rows).params.len() == 6 * rows.len(),
        buckets_grown(table, sql::bucket_upsert(rows).params, n) == carry::merged(
            table,
            aggregator::bucket_rows(rows).take(n as int),
        ),
    decreases n,
{
    let params = sql::bucket_upsert(rows).params;
    let cells = sql::bucket_value_rows(rows);
    let listed = aggregator::bucket_rows(rows);
    sql::values_are_as_many_as_placeholders(cells, 6);
    if n > 0 {
        let k = n - 1;
        lemma_buckets_grown(table, rows, k as nat);
        assert(listed.take(n as int).drop_last() =~= listed.take(k));
        assert(listed.take(n as int).last() == listed[k]);
        assert(cells[k] == sql::bucket_values(rows[k]));
        sql::values_meet_their_placeholders(cells, 6, k, 0);
        sql::values_meet_their_placeholders(cells, 6, k, 1);
        sql::values_meet_their_placeholders(cells, 6, k, 2);
        sql::values_meet_their_placeholders(cells, 6, k, 3);
        sql::values_meet_their_placeholders(cells, 6, k, 4);
        sql::values_meet_their_placeholders(cells, 6, k, 5);
    } else {
        assert(listed.take(0) =~= Seq::empty());
    }
}

/// The table of days once the first rows of a statement have been added to it, by what its placeholders
/// stand for.
pub open spec fn days_grown(
    table: Map<DayKey, Tally>,
    params: Seq<SqlModel>,
    rows: nat,
) -> Map<DayKey, Tally>
    decreases rows,
{
    if rows == 0 {
        table
    } else {
        let before = days_grown(table, params, (rows - 1) as nat);
        let at = 6 * (rows - 1);
        match (
            params[at],
            params[at + 1],
            params[at + 2],
            params[at + 3],
            params[at + 4],
            params[at + 5],
        ) {
            (
                SqlModel::Date(first),
                SqlModel::Address(addr),
                SqlModel::Int8(intra_rx),
                SqlModel::Int8(intra_tx),
                SqlModel::Int8(ext_rx),
                SqlModel::Int8(ext_tx),
            ) => {
                let key = DayKey { day: first, addr };
                let held = ledger::tally_at(before, key);
                before.insert(
                    key,
                    Tally {
                        intra_rx: held.intra_rx + intra_rx,
                        intra_tx: held.intra_tx + intra_tx,
                        ext_rx: held.ext_rx + ext_rx,
                        ext_tx: held.ext_tx + ext_tx,
                    },
                )
            },
            _ => before,
        }
    }
}

proof fn lemma_days_grown(table: Map<DayKey, Tally>, rows: Seq<DayDelta>, n: nat)
    requires
        n <= rows.len(),
    ensures
        sql::day_upsert(rows).params.len() == 6 * rows.len(),
        days_grown(table, sql::day_upsert(rows).params, n) == carry::merged(
            table,
            aggregator::day_rows(rows).take(n as int),
        ),
    decreases n,
{
    let params = sql::day_upsert(rows).params;
    let cells = sql::day_value_rows(rows);
    let listed = aggregator::day_rows(rows);
    sql::values_are_as_many_as_placeholders(cells, 6);
    if n > 0 {
        let k = n - 1;
        lemma_days_grown(table, rows, k as nat);
        assert(listed.take(n as int).drop_last() =~= listed.take(k));
        assert(listed.take(n as int).last() == listed[k]);
        assert(cells[k] == sql::day_values(rows[k]));
        sql::values_meet_their_placeholders(cells, 6, k, 0);
        sql::values_meet_their_placeholders(cells, 6, k, 1);
        sql::values_meet_their_placeholders(cells, 6, k, 2);
        sql::values_meet_their_placeholders(cells, 6, k, 3);
        sql::values_meet_their_placeholders(cells, 6, k, 4);
        sql::values_meet_their_placeholders(cells, 6, k, 5);
    } else {
        assert(listed.take(0) =~= Seq::empty());
    }
}

/// The health row that the parameters of a statement give.
pub open spec fn health_row_in(params: Seq<SqlModel>) -> HealthRow {
    HealthRow {
        bucket: match params[0] {
            SqlModel::Instant(bucket) => Some(bucket),
            _ => None,
        },
        packets_received: number_in(params[1]),
        flows_parsed: number_in(params[2]),
        parse_failures: number_in(params[3]),
        seq_gap: number_in(params[4]),
        flows_matched: number_in(params[5]),
        rows_written: number_in(params[6]),
        db_failures: number_in(params[7]),
        clock_skew_min_ms: skew_in(params[8]),
        clock_skew_max_ms: skew_in(params[9]),
        clock_skew_last_ms: skew_in(params[10]),
        clock_skew_rejects: number_in(params[11]),
    }
}

/// The number that a parameter gives.
pub open spec fn number_in(param: SqlModel) -> i64 {
    match param {
        SqlModel::Int8(n) => n,
        _ => 0,
    }
}

/// The number that a parameter gives, if it gives any.
pub open spec fn skew_in(param: SqlModel) -> Option<i64> {
    match param {
        SqlModel::OptInt8(n) => n,
        _ => None,
    }
}

/// The tables of the statistics once a statement that adds rows has been run on them, by the table that its
/// text names and what its placeholders stand for.
pub open spec fn grown(t: StatTables, step: StatementModel) -> StatTables {
    let rows = (step.params.len() / 6) as nat;
    if step.sql.take(24) == "INSERT INTO flow_stat_5m"@ {
        StatTables { buckets: buckets_grown(t.buckets, step.params, rows), ..t }
    } else if step.sql.take(24) == "INSERT INTO flow_stat_1d"@ {
        StatTables { days: days_grown(t.days, step.params, rows), ..t }
    } else {
        StatTables { health: t.health.push(health_row_in(step.params)), ..t }
    }
}

/// The tables once statements that add rows have been run on them, one after the other.
pub open spec fn grown_by_all(t: StatTables, steps: Seq<StatementModel>) -> StatTables
    decreases steps.len(),
{
    if steps.len() == 0 {
        t
    } else {
        grown(grown_by_all(t, steps.drop_last()), steps.last())
    }
}

proof fn lemma_in_turn(t: StatTables, first: Seq<StatementModel>, then: Seq<StatementModel>)
    ensures
        grown_by_all(t, first + then) == grown_by_all(grown_by_all(t, first), then),
    decreases then.len(),
{
    if then.len() > 0 {
        lemma_in_turn(t, first, then.drop_last());
        assert((first + then).drop_last() =~= first + then.drop_last());
        assert((first + then).last() == then.last());
    } else {
        assert(first + then =~= first);
    }
}

/// Which table a statement names can be told from its text.
proof fn lemma_tables_differ(rest: Seq<char>, end: Seq<char>)
    ensures
        (sql::BUCKET_INSERT@ + rest + end).take(24) == "INSERT INTO flow_stat_5m"@,
        (sql::DAY_INSERT@ + rest + end).take(24) == "INSERT INTO flow_stat_1d"@,
        (sql::DAY_INSERT@ + rest + end).take(24) != "INSERT INTO flow_stat_5m"@,
        sql::HEALTH_UPSERT@.take(24) != "INSERT INTO flow_stat_5m"@,
        sql::HEALTH_UPSERT@.take(24) != "INSERT INTO flow_stat_1d"@,
{
    let five = "INSERT INTO flow_stat_5m"@;
    let one = "INSERT INTO flow_stat_1d"@;
    reveal_strlit("INSERT INTO flow_stat_5m");
    reveal_strlit("INSERT INTO flow_stat_1d");
    reveal_strlit(
        "INSERT INTO flow_stat_5m \
    (bucket,addr,intra_rx_bytes,intra_tx_bytes,ext_rx_bytes,ext_tx_bytes) VALUES ",
    );
    reveal_strlit(
        "INSERT INTO flow_stat_1d \
    (day,addr,intra_rx_bytes,intra_tx_bytes,ext_rx_bytes,ext_tx_bytes) VALUES ",
    );
    assert((sql::BUCKET_INSERT@ + rest + end).take(24) =~= five);
    assert((sql::DAY_INSERT@ + rest + end).take(24) =~= one);
    assert(five[22] == '5' && one[22] == '1');
    wording::health_rows_name_their_columns();
    reveal_strlit("INSERT INTO collector_health_1m (");
    assert(sql::HEALTH_UPSERT@.take(24)[12] == 'c');
    assert(five[12] == 'f' && one[12] == 'f');
}

proof fn lemma_buckets_in_chunks(t: StatTables, rows: Seq<StatDelta>, n: int)
    requires
        0 <= n <= sql::bucket_upserts(rows).len(),
    ensures
        grown_by_all(t, sql::bucket_upserts(rows).take(n)) == (StatTables {
            buckets: carry::merged(
                t.buckets,
                aggregator::bucket_rows(rows).take(
                    if 2000 * n < rows.len() {
                        2000 * n
                    } else {
                        rows.len() as int
                    },
                ),
            ),
            ..t
        }),
    decreases n,
{
    let steps = sql::bucket_upserts(rows);
    let listed = aggregator::bucket_rows(rows);
    if n > 0 {
        lemma_buckets_in_chunks(t, rows, n - 1);
        let part = sql::chunk(rows, n - 1);
        let parted = aggregator::bucket_rows(part);
        let from = 2000 * (n - 1);
        let to = if 2000 * n < rows.len() {
            2000 * n
        } else {
            rows.len() as int
        };
        assert(steps.take(n).drop_last() =~= steps.take(n - 1));
        assert(steps.take(n).last() == sql::bucket_upsert(part));
        lemma_tables_differ(
            sql::placeholder_rows(part.len(), sql::STAT_COLUMNS as nat),
            sql::BUCKET_CONFLICT@,
        );
        let before = grown_by_all(t, steps.take(n - 1));
        lemma_buckets_grown(before.buckets, part, part.len());
        assert(parted.take(part.len() as int) =~= parted);
        carry::batches_add_up(t.buckets, listed.take(from), parted);
        assert(listed.take(from) + parted =~= listed.take(to));
    } else {
        assert(steps.take(0) =~= Seq::empty());
        assert(listed.take(0) =~= Seq::empty());
    }
}

proof fn lemma_days_in_chunks(t: StatTables, rows: Seq<DayDelta>, n: int)
    requires
        0 <= n <= sql::day_upserts(rows).len(),
    ensures
        grown_by_all(t, sql::day_upserts(rows).take(n)) == (StatTables {
            days: carry::merged(
                t.days,
                aggregator::day_rows(rows).take(
                    if 2000 * n < rows.len() {
                        2000 * n
                    } else {
                        rows.len() as int
                    },
                ),
            ),
            ..t
        }),
    decreases n,
{
    let steps = sql::day_upserts(rows);
    let listed = aggregator::day_rows(rows);
    if n > 0 {
        lemma_days_in_chunks(t, rows, n - 1);
        let part = sql::chunk(rows, n - 1);
        let parted = aggregator::day_rows(part);
        let from = 2000 * (n - 1);
        let to = if 2000 * n < rows.len() {
            2000 * n
        } else {
            rows.len() as int
        };
        assert(steps.take(n).drop_last() =~= steps.take(n - 1));
        assert(steps.take(n).last() == sql::day_upsert(part));
        lemma_tables_differ(
            sql::placeholder_rows(part.len(), sql::STAT_COLUMNS as nat),
            sql::DAY_CONFLICT@,
        );
        let before = grown_by_all(t, steps.take(n - 1));
        lemma_days_grown(before.days, part, part.len());
        assert(parted.take(part.len() as int) =~= parted);
        carry::batches_add_up(t.days, listed.take(from), parted);
        assert(listed.take(from) + parted =~= listed.take(to));
    } else {
        assert(steps.take(0) =~= Seq::empty());
        assert(listed.take(0) =~= Seq::empty());
    }
}

/// The health rows that are for a window, in order.
pub open spec fn with_a_window(rows: Seq<HealthRow>) -> Seq<HealthRow>
    decreases rows.len(),
{
    if rows.len() == 0 {
        Seq::empty()
    } else if rows.last().bucket is Some {
        with_a_window(rows.drop_last()).push(rows.last())
    } else {
        with_a_window(rows.drop_last())
    }
}

proof fn lemma_windows_in_turn(t: StatTables, rows: Seq<HealthRow>)
    ensures
        grown_by_all(t, sql::health_upserts(rows)) == (StatTables {
            health: t.health + with_a_window(rows),
            ..t
        }),
    decreases rows.len(),
{
    let steps = sql::health_upserts(rows);
    if rows.len() > 0 {
        let less = rows.drop_last();
        let row = rows.last();
        lemma_windows_in_turn(t, less);
        if let Some(bucket) = row.bucket {
            let step = sql::health_upsert(bucket, row);
            assert(steps.drop_last() =~= sql::health_upserts(less));
            assert(steps.last() == step);
            lemma_tables_differ(Seq::empty(), Seq::empty());
            assert(health_row_in(step.params) == row);
            assert((t.health + with_a_window(less)).push(row) =~= t.health + with_a_window(rows));
        } else {
            assert(steps =~= sql::health_upserts(less));
        }
    } else {
        assert(t.health + Seq::empty() =~= t.health);
    }
}

/// Running the statements that write what waits adds each of its bucket rows and day rows to what the
/// tables hold for its key, counter by counter, and delivers its health rows that are for a window, in
/// order.
pub proof fn running_a_flush_adds_its_rows(
    t: StatTables,
    buckets: Seq<StatDelta>,
    days: Seq<DayDelta>,
    health: Seq<HealthRow>,
)
    ensures
        grown_by_all(
            t,
            sql::bucket_upserts(buckets) + sql::day_upserts(days) + sql::health_upserts(health),
        ) == (StatTables {
            buckets: carry::merged(t.buckets, aggregator::bucket_rows(buckets)),
            days: carry::merged(t.days, aggregator::day_rows(days)),
            health: t.health + with_a_window(health),
        }),
{
    let first = sql::bucket_upserts(buckets);
    let second = sql::day_upserts(days);
    let third = sql::health_upserts(health);
    lemma_in_turn(t, first + second, third);
    lemma_in_turn(t, first, second);
    lemma_buckets_in_chunks(t, buckets, first.len() as int);
    assert(first.take(first.len() as int) =~= first);
    assert(aggregator::bucket_rows(buckets).take(buckets.len() as int)
        =~= aggregator::bucket_rows(buckets));
    let one = grown_by_all(t, first);
    lemma_days_in_chunks(one, days, second.len() as int);
    assert(second.take(second.len() as int) =~= second);
    assert(aggregator::day_rows(days).take(days.len() as int) =~= aggregator::day_rows(days));
    lemma_windows_in_turn(grown_by_all(one, second), health);
}

} // verus!
