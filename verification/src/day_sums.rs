//! Adding up bucket rows by day: which sums can come out, and that the order does not matter.

use vstd::prelude::*;

use crate::aggregator::{self, Counters, DayKey, StatDelta, StatKey, Tally};
use crate::ledger;

verus! {

/// One of the four numbers of a tally.
pub open spec fn part(t: Tally, f: int) -> int {
    if f == 0 {
        t.intra_rx
    } else if f == 1 {
        t.intra_tx
    } else if f == 2 {
        t.ext_rx
    } else {
        t.ext_tx
    }
}

/// What one row adds to one number of one day and host.
pub open spec fn share(row: StatDelta, key: DayKey, f: int) -> int {
    if aggregator::day_key(row) == key {
        part(row.counters@, f)
    } else {
        0
    }
}

/// One number of one day and host, added up over rows.
pub open spec fn day_sum(rows: Seq<StatDelta>, key: DayKey, f: int) -> int
    decreases rows.len(),
{
    if rows.len() == 0 {
        0
    } else {
        day_sum(rows.drop_last(), key, f) + share(rows.last(), key, f)
    }
}

/// Rows with what they take away left out.
pub open spec fn gains_of(rows: Seq<StatDelta>) -> Seq<StatDelta> {
    Seq::new(rows.len(), |i: int| gain_of(rows[i]))
}

/// Rows with what they add left out.
pub open spec fn losses_of(rows: Seq<StatDelta>) -> Seq<StatDelta> {
    Seq::new(rows.len(), |i: int| loss_of(rows[i]))
}

/// A row with what it takes away left out.
pub open spec fn gain_of(row: StatDelta) -> StatDelta {
    StatDelta {
        key: row.key,
        counters: Counters {
            intra_rx: if row.counters.intra_rx > 0 { row.counters.intra_rx } else { 0 },
            intra_tx: if row.counters.intra_tx > 0 { row.counters.intra_tx } else { 0 },
            ext_rx: if row.counters.ext_rx > 0 { row.counters.ext_rx } else { 0 },
            ext_tx: if row.counters.ext_tx > 0 { row.counters.ext_tx } else { 0 },
        },
    }
}

/// A row with what it adds left out.
pub open spec fn loss_of(row: StatDelta) -> StatDelta {
    StatDelta {
        key: row.key,
        counters: Counters {
            intra_rx: if row.counters.intra_rx < 0 { row.counters.intra_rx } else { 0 },
            intra_tx: if row.counters.intra_tx < 0 { row.counters.intra_tx } else { 0 },
            ext_rx: if row.counters.ext_rx < 0 { row.counters.ext_rx } else { 0 },
            ext_tx: if row.counters.ext_tx < 0 { row.counters.ext_tx } else { 0 },
        },
    }
}

/// The totals of a day are the sums over its rows.
pub proof fn totals_are_sums(rows: Seq<StatDelta>, key: DayKey, f: int)
    requires
        0 <= f < 4,
    ensures
        part(ledger::tally_at(aggregator::day_totals(rows), key), f) == day_sum(rows, key, f),
    decreases rows.len(),
{
    if rows.len() > 0 {
        totals_are_sums(rows.drop_last(), key, f);
    }
}

/// A day and a host have a total exactly where a row counts towards them.
pub proof fn totals_have_rows(rows: Seq<StatDelta>, key: DayKey)
    ensures
        aggregator::day_totals(rows).contains_key(key) <==> exists|i: int|
            0 <= i < rows.len() && aggregator::day_key(#[trigger] rows[i]) == key,
    decreases rows.len(),
{
    if rows.len() > 0 {
        let less = rows.drop_last();
        totals_have_rows(less, key);
        if aggregator::day_totals(less).contains_key(key) {
            let i = choose|i: int| 0 <= i < less.len() && aggregator::day_key(#[trigger] less[i]) == key;
            assert(rows[i] == less[i]);
        }
        if aggregator::day_key(rows.last()) == key {
            assert(rows[rows.len() - 1] == rows.last());
        }
        if exists|i: int| 0 <= i < rows.len() && aggregator::day_key(#[trigger] rows[i]) == key {
            let i = choose|i: int| 0 <= i < rows.len() && aggregator::day_key(#[trigger] rows[i]) == key;
            if i < less.len() {
                assert(less[i] == rows[i]);
            }
        }
    }
}

/// Taking one row out of a sum.
proof fn lemma_sum_without(rows: Seq<StatDelta>, i: int, key: DayKey, f: int)
    requires
        0 <= i < rows.len(),
    ensures
        day_sum(rows, key, f) == day_sum(rows.remove(i), key, f) + share(rows[i], key, f),
    decreases rows.len(),
{
    if i == rows.len() - 1 {
        assert(rows.remove(i) =~= rows.drop_last());
    } else {
        lemma_sum_without(rows.drop_last(), i, key, f);
        assert(rows.remove(i).drop_last() =~= rows.drop_last().remove(i));
        assert(rows.remove(i).last() == rows.last());
    }
}

/// Rows with no key twice.
pub open spec fn distinct_keys(rows: Seq<StatDelta>) -> bool {
    forall|i: int, j: int| 0 <= i < j < rows.len() ==> (#[trigger] rows[i]).key != (#[trigger] rows[j]).key
}

/// Rows that all come up among others.
pub open spec fn among(some: Seq<StatDelta>, all: Seq<StatDelta>) -> bool {
    forall|i: int| 0 <= i < some.len() ==> all.contains(#[trigger] some[i])
}

/// Rows with one taken out still hold the rows that did not need it.
proof fn lemma_among_without(some: Seq<StatDelta>, all: Seq<StatDelta>, at: int)
    requires
        some.len() > 0,
        distinct_keys(some),
        among(some, all),
        0 <= at < all.len(),
        all[at] == some.last(),
    ensures
        distinct_keys(some.drop_last()),
        among(some.drop_last(), all.remove(at)),
{
    let less = some.drop_last();
    assert forall|i: int| 0 <= i < less.len() implies all.remove(at).contains(#[trigger] less[i]) by {
        assert(some[i] == less[i]);
        assert(some[i].key != some[some.len() - 1].key);
        let p = choose|p: int| 0 <= p < all.len() && all[p] == some[i];
        if p < at {
            assert(all.remove(at)[p] == less[i]);
        } else {
            assert(all.remove(at)[p - 1] == less[i]);
        }
    }
    assert forall|i: int, j: int| 0 <= i < j < less.len() implies (#[trigger] less[i]).key
        != (#[trigger] less[j]).key by {
        assert(some[i] == less[i] && some[j] == less[j]);
    }
}

/// No choice of rows sums to more than the gains of all rows, or to less than their losses.
proof fn lemma_sum_bounds(some: Seq<StatDelta>, all: Seq<StatDelta>, key: DayKey, f: int)
    requires
        0 <= f < 4,
        distinct_keys(some),
        among(some, all),
    ensures
        day_sum(losses_of(all), key, f) <= day_sum(some, key, f) <= day_sum(gains_of(all), key, f),
    decreases some.len(),
{
    if some.len() == 0 {
        lemma_signs(all, key, f);
    } else {
        let row = some.last();
        assert(all.contains(some[some.len() - 1]));
        let at = choose|p: int| 0 <= p < all.len() && all[p] == row;
        lemma_among_without(some, all, at);
        lemma_sum_bounds(some.drop_last(), all.remove(at), key, f);
        lemma_sum_without(gains_of(all), at, key, f);
        lemma_sum_without(losses_of(all), at, key, f);
        assert(gains_of(all).remove(at) =~= gains_of(all.remove(at)));
        assert(losses_of(all).remove(at) =~= losses_of(all.remove(at)));
    }
}

/// Gains add up to nothing negative, losses to nothing positive.
proof fn lemma_signs(rows: Seq<StatDelta>, key: DayKey, f: int)
    requires
        0 <= f < 4,
    ensures
        day_sum(losses_of(rows), key, f) <= 0 <= day_sum(gains_of(rows), key, f),
    decreases rows.len(),
{
    if rows.len() > 0 {
        lemma_signs(rows.drop_last(), key, f);
        assert(gains_of(rows).drop_last() =~= gains_of(rows.drop_last()));
        assert(losses_of(rows).drop_last() =~= losses_of(rows.drop_last()));
    }
}

/// The rows that add to one number of one day and host, or those that take from it.
pub open spec fn one_sided(rows: Seq<StatDelta>, key: DayKey, f: int, up: bool) -> Seq<StatDelta>
    decreases rows.len(),
{
    if rows.len() == 0 {
        rows
    } else {
        let less = one_sided(rows.drop_last(), key, f, up);
        let s = share(rows.last(), key, f);
        if (up && s > 0) || (!up && s < 0) {
            less.push(rows.last())
        } else {
            less
        }
    }
}

/// Those rows are rows of the whole, and they reach the full gain or loss.
proof fn lemma_one_sided(rows: Seq<StatDelta>, key: DayKey, f: int, up: bool)
    requires
        0 <= f < 4,
        distinct_keys(rows),
    ensures
        among(one_sided(rows, key, f, up), rows),
        distinct_keys(one_sided(rows, key, f, up)),
        up ==> day_sum(one_sided(rows, key, f, up), key, f) == day_sum(gains_of(rows), key, f),
        !up ==> day_sum(one_sided(rows, key, f, up), key, f) == day_sum(losses_of(rows), key, f),
    decreases rows.len(),
{
    if rows.len() > 0 {
        let less = rows.drop_last();
        assert forall|i: int, j: int| 0 <= i < j < less.len() implies (#[trigger] less[i]).key
            != (#[trigger] less[j]).key by {
            assert(rows[i] == less[i] && rows[j] == less[j]);
        }
        lemma_one_sided(less, key, f, up);
        assert(gains_of(rows).drop_last() =~= gains_of(less));
        assert(losses_of(rows).drop_last() =~= losses_of(less));
        let kept = one_sided(less, key, f, up);
        let all = one_sided(rows, key, f, up);
        assert forall|i: int| 0 <= i < all.len() implies rows.contains(#[trigger] all[i]) by {
            if i < kept.len() {
                assert(all[i] == kept[i]);
                let p = choose|p: int| 0 <= p < less.len() && less[p] == kept[i];
                assert(rows[p] == kept[i]);
            } else {
                assert(rows[rows.len() - 1] == all[i]);
            }
        }
        assert forall|i: int, j: int| 0 <= i < j < all.len() implies (#[trigger] all[i]).key
            != (#[trigger] all[j]).key by {
            assert(all[i] == kept[i]);
            if j < kept.len() {
                assert(all[j] == kept[j]);
            } else {
                let p = choose|p: int| 0 <= p < less.len() && less[p] == kept[i];
                assert(rows[p] == kept[i]);
                assert(rows[p].key != rows[rows.len() - 1].key);
            }
        }
        if all.len() > kept.len() {
            assert(all.drop_last() =~= kept);
        }
    }
}

/// The totals of rows listed twice over, in two orders, are the same.
pub proof fn totals_ignore_order(a: Seq<StatDelta>, b: Seq<StatDelta>, m: Map<StatKey, Tally>)
    requires
        ledger::lists_all(aggregator::bucket_rows(a), m),
        ledger::lists_all(aggregator::bucket_rows(b), m),
    ensures
        aggregator::day_totals(a) == aggregator::day_totals(b),
{
    lemma_listed_among(a, b, m);
    lemma_listed_among(b, a, m);
    let x = aggregator::day_totals(a);
    let y = aggregator::day_totals(b);
    assert forall|key: DayKey| #[trigger] x.dom().contains(key) == y.dom().contains(key) by {
        totals_have_rows(a, key);
        totals_have_rows(b, key);
        if x.contains_key(key) {
            let i = choose|i: int| 0 <= i < a.len() && aggregator::day_key(#[trigger] a[i]) == key;
            let j = choose|j: int| 0 <= j < b.len() && b[j] == a[i];
            assert(aggregator::day_key(b[j]) == key);
        }
        if y.contains_key(key) {
            let j = choose|j: int| 0 <= j < b.len() && aggregator::day_key(#[trigger] b[j]) == key;
            let i = choose|i: int| 0 <= i < a.len() && a[i] == b[j];
            assert(aggregator::day_key(a[i]) == key);
        }
    }
    assert forall|key: DayKey| #[trigger] x.dom().contains(key) implies x[key] == y[key] by {
        assert(y.dom().contains(key));
        assert forall|f: int| 0 <= f < 4 implies #[trigger] part(x[key], f) == part(y[key], f) by {
            totals_are_sums(a, key, f);
            totals_are_sums(b, key, f);
            lemma_same_sums(a, b, key, f);
        }
        assert(part(x[key], 0) == part(y[key], 0));
        assert(part(x[key], 1) == part(y[key], 1));
        assert(part(x[key], 2) == part(y[key], 2));
        assert(part(x[key], 3) == part(y[key], 3));
    }
    assert(x =~= y);
}

/// Each row of one listing comes up in another listing of the same map.
proof fn lemma_listed_among(a: Seq<StatDelta>, b: Seq<StatDelta>, m: Map<StatKey, Tally>)
    requires
        ledger::lists_some(aggregator::bucket_rows(a), m),
        ledger::lists_all(aggregator::bucket_rows(b), m),
    ensures
        distinct_keys(a),
        among(a, b),
{
    let x = aggregator::bucket_rows(a);
    let y = aggregator::bucket_rows(b);
    assert forall|i: int, j: int| 0 <= i < j < a.len() implies (#[trigger] a[i]).key
        != (#[trigger] a[j]).key by {
        assert(x[i].0 != x[j].0);
    }
    assert forall|i: int| 0 <= i < a.len() implies b.contains(#[trigger] a[i]) by {
        assert(m.contains_key(x[i].0));
        let p = choose|p: int| 0 <= p < y.len() && (#[trigger] y[p]).0 == x[i].0;
        assert(m[y[p].0] == y[p].1@ && m[x[i].0] == x[i].1@);
        assert(b[p] == a[i]);
    }
}

proof fn lemma_same_sums(a: Seq<StatDelta>, b: Seq<StatDelta>, key: DayKey, f: int)
    requires
        0 <= f < 4,
        distinct_keys(a),
        distinct_keys(b),
        among(a, b),
        among(b, a),
    ensures
        day_sum(a, key, f) == day_sum(b, key, f),
    decreases a.len(),
{
    if a.len() == 0 {
        if b.len() > 0 {
            assert(a.contains(b[0]));
        }
    } else {
        let row = a.last();
        assert(b.contains(a[a.len() - 1]));
        let at = choose|p: int| 0 <= p < b.len() && b[p] == row;
        lemma_among_without(a, b, at);
        let rest = b.remove(at);
        assert forall|i: int, j: int| 0 <= i < j < rest.len() implies (#[trigger] rest[i]).key
            != (#[trigger] rest[j]).key by {
            let p = if i < at { i } else { i + 1 };
            let q = if j < at { j } else { j + 1 };
            assert(rest[i] == b[p] && rest[j] == b[q]);
        }
        assert forall|i: int| 0 <= i < rest.len() implies a.drop_last().contains(#[trigger] rest[i]) by {
            let p = if i < at { i } else { i + 1 };
            assert(rest[i] == b[p]);
            assert(a.contains(b[p]));
            let q = choose|q: int| 0 <= q < a.len() && a[q] == b[p];
            assert(b[p].key != b[at].key);
            assert(a.drop_last()[q] == rest[i]);
        }
        lemma_same_sums(a.drop_last(), rest, key, f);
        lemma_sum_without(b, at, key, f);
    }
}

/// Where the gains and the losses of all rows fit, so does every total of some of them.
pub proof fn bounded_rows_fit(all: Seq<StatDelta>, m: Map<StatKey, Tally>)
    requires
        ledger::lists_all(aggregator::bucket_rows(all), m),
        aggregator::all_fit(aggregator::day_totals(gains_of(all))),
        aggregator::all_fit(aggregator::day_totals(losses_of(all))),
    ensures
        aggregator::days_fit(m),
{
    let gains = aggregator::day_totals(gains_of(all));
    let losses = aggregator::day_totals(losses_of(all));
    assert forall|some: Seq<StatDelta>|
        ledger::lists_some(#[trigger] aggregator::bucket_rows(some), m) implies aggregator::all_fit(
        aggregator::day_totals(some),
    ) by {
        lemma_listed_among(some, all, m);
        let totals = aggregator::day_totals(some);
        assert forall|key: DayKey| #[trigger] totals.contains_key(key) implies totals[key].fits() by {
            assert(ledger::tally_at(gains, key).fits()) by {
                assert(gains.contains_key(key) ==> gains[key].fits());
            }
            assert(ledger::tally_at(losses, key).fits()) by {
                assert(losses.contains_key(key) ==> losses[key].fits());
            }
            assert forall|f: int| 0 <= f < 4 implies i64::MIN <= #[trigger] part(totals[key], f)
                <= i64::MAX by {
                totals_are_sums(some, key, f);
                totals_are_sums(gains_of(all), key, f);
                totals_are_sums(losses_of(all), key, f);
                lemma_sum_bounds(some, all, key, f);
            }
            assert(i64::MIN <= part(totals[key], 0) <= i64::MAX);
            assert(i64::MIN <= part(totals[key], 1) <= i64::MAX);
            assert(i64::MIN <= part(totals[key], 2) <= i64::MAX);
            assert(i64::MIN <= part(totals[key], 3) <= i64::MAX);
        }
    }
}

/// Where the gains or the losses of some rows do not fit, some total does not fit.
pub proof fn unbounded_rows_do_not_fit(some: Seq<StatDelta>, m: Map<StatKey, Tally>, key: DayKey, up: bool)
    requires
        ledger::lists_some(aggregator::bucket_rows(some), m),
        up ==> !ledger::tally_at(aggregator::day_totals(gains_of(some)), key).fits(),
        !up ==> !ledger::tally_at(aggregator::day_totals(losses_of(some)), key).fits(),
    ensures
        !aggregator::days_fit(m),
{
    let side = if up { gains_of(some) } else { losses_of(some) };
    let tally = ledger::tally_at(aggregator::day_totals(side), key);
    let f = if !(i64::MIN <= tally.intra_rx <= i64::MAX) {
        0int
    } else if !(i64::MIN <= tally.intra_tx <= i64::MAX) {
        1int
    } else if !(i64::MIN <= tally.ext_rx <= i64::MAX) {
        2int
    } else {
        3int
    };
    assert(!(i64::MIN <= part(tally, f) <= i64::MAX));
    let x = aggregator::bucket_rows(some);
    assert forall|i: int, j: int| 0 <= i < j < some.len() implies (#[trigger] some[i]).key
        != (#[trigger] some[j]).key by {
        assert(x[i].0 != x[j].0);
    }
    totals_are_sums(side, key, f);
    lemma_one_sided(some, key, f, up);
    let rows = one_sided(some, key, f, up);
    totals_are_sums(rows, key, f);
    let y = aggregator::bucket_rows(rows);
    assert forall|i: int| 0 <= i < y.len() implies m.contains_key((#[trigger] y[i]).0) && m[y[i].0]
        == y[i].1@ by {
        assert(some.contains(rows[i]));
        let p = choose|p: int| 0 <= p < some.len() && some[p] == rows[i];
        assert(x[p] == y[i]);
    }
    assert forall|i: int, j: int| 0 <= i < j < y.len() implies (#[trigger] y[i]).0
        != (#[trigger] y[j]).0 by {
        assert(rows[i].key != rows[j].key);
    }
    assert(ledger::lists_some(y, m));
    let totals = aggregator::day_totals(rows);
    assert(totals.contains_key(key));
    assert(!totals[key].fits());
}

} // verus!
