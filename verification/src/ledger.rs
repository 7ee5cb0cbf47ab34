//! Byte counters kept by key, each key once.

use std::collections::HashMap;
use vstd::prelude::*;

use crate::aggregator::{Counters, Tally};

verus! {

broadcast use vstd::std_specs::hash::group_hash_axioms;

/// What a ledger can be kept by: a value with a number of its own.
pub trait LedgerKey: Sized + Copy {
    /// The number of this value.
    spec fn code(self) -> u128;

    /// Different values have different numbers.
    proof fn code_is_injective(self, other: Self)
        requires
            self.code() == other.code(),
        ensures
            self == other,
    ;

    /// The number of this value.
    fn to_code(&self) -> (r: u128)
        ensures
            r == self.code(),
    ;
}

/// Byte counters by key.
pub struct Ledger<K: LedgerKey> {
    entries: HashMap<u128, (K, Counters)>,
}

/// What is counted under a key: nothing, where the key is not there.
pub open spec fn tally_at<K>(m: Map<K, Tally>, key: K) -> Tally {
    if m.contains_key(key) {
        m[key]
    } else {
        Tally::zero()
    }
}

/// A map of tallies with one more addition.
pub open spec fn with_added<K>(m: Map<K, Tally>, key: K, delta: Tally) -> Map<K, Tally> {
    m.insert(key, tally_at(m, key).plus(delta))
}

/// Whether a key has in one map what it has in another: the same entry, or none.
pub open spec fn unchanged_at<K>(m: Map<K, Tally>, other: Map<K, Tally>, key: K) -> bool {
    &&& m.contains_key(key) == other.contains_key(key)
    &&& m.contains_key(key) ==> m[key] == other[key]
}

/// Whether rows hold entries of a map, none of them twice.
pub open spec fn lists_some<K>(rows: Seq<(K, Counters)>, m: Map<K, Tally>) -> bool {
    &&& forall|i: int|
        0 <= i < rows.len() ==> m.contains_key((#[trigger] rows[i]).0) && m[rows[i].0] == rows[i].1@
    &&& forall|i: int, j: int| 0 <= i < j < rows.len() ==> (#[trigger] rows[i]).0 != (#[trigger] rows[j]).0
}

/// Whether rows hold every entry of a map, none of them twice.
pub open spec fn lists_all<K>(rows: Seq<(K, Counters)>, m: Map<K, Tally>) -> bool {
    &&& lists_some(rows, m)
    &&& forall|k: K| #[trigger] m.contains_key(k) ==> exists|i: int| 0 <= i < rows.len() && (#[trigger] rows[i]).0 == k
}

impl<K: LedgerKey> Ledger<K> {
    /// Every entry is filed under the number of its key.
    pub closed spec fn wf(&self) -> bool {
        forall|c: u128| #[trigger] self.entries@.contains_key(c) ==> self.entries@[c].0.code() == c
    }

    /// An empty ledger.
    pub fn new() -> (r: Self)
        ensures
            r.wf(),
            r@ == Map::<K, Tally>::empty(),
    {
        let r = Ledger { entries: HashMap::new() };
        assert(r@ =~= Map::<K, Tally>::empty());
        r
    }

    /// What is counted under a key.
    pub fn get(&self, key: K) -> (r: Counters)
        requires
            self.wf(),
        ensures
            r@ == tally_at(self@, key),
            self@.contains_key(key) ==> r.intra_rx == self@[key].intra_rx && r.intra_tx
                == self@[key].intra_tx && r.ext_rx == self@[key].ext_rx && r.ext_tx
                == self@[key].ext_tx,
            !self@.contains_key(key) ==> r.intra_rx == 0 && r.intra_tx == 0 && r.ext_rx == 0
                && r.ext_tx == 0,
    {
        match self.entries.get(&key.to_code()) {
            Some(entry) => entry.1,
            None => Counters::default(),
        }
    }

    /// Adds to what is counted under a key.
    pub fn add(&mut self, key: K, delta: &Counters)
        requires
            old(self).wf(),
            tally_at(old(self)@, key).plus(delta@).fits(),
        ensures
            final(self).wf(),
            final(self)@ == with_added(old(self)@, key, delta@),
            final(self)@.contains_key(key),
            ({
                let before = tally_at(old(self)@, key);
                let after = final(self)@[key];
                &&& after.intra_rx == before.intra_rx + delta.intra_rx
                &&& after.intra_tx == before.intra_tx + delta.intra_tx
                &&& after.ext_rx == before.ext_rx + delta.ext_rx
                &&& after.ext_tx == before.ext_tx + delta.ext_tx
            }),
            forall|k: K| k != key ==> #[trigger] unchanged_at(final(self)@, old(self)@, k),
    {
        let mut counters = self.get(key);
        counters.add(delta);
        self.entries.insert(key.to_code(), (key, counters));
        proof {
            let after = with_added(old(self)@, key, delta@);
            assert forall|k: K| #[trigger] self@.dom().contains(k) == after.dom().contains(k) by {
                if k.code() == key.code() {
                    k.code_is_injective(key);
                }
            }
            assert forall|k: K| #[trigger] self@.dom().contains(k) implies self@[k] == after[k] by {
                if k.code() == key.code() {
                    k.code_is_injective(key);
                }
            }
            assert(self@ =~= after);
        }
    }

    /// Whether a counter can hold what an addition would make of it.
    pub fn accepts(&self, key: K, delta: &Counters) -> (r: bool)
        requires
            self.wf(),
        ensures
            r == tally_at(self@, key).plus(delta@).fits(),
    {
        let counters = self.get(key);
        counters.can_add(delta)
    }

    /// How many keys there are.
    pub fn len(&self) -> (r: usize)
        requires
            self.wf(),
        ensures
            r == self@.len(),
            self@.dom().finite(),
    {
        let r = self.entries.len();
        proof {
            self.lemma_size();
        }
        r
    }

    /// Whether there is no key.
    pub fn is_empty(&self) -> (r: bool)
        requires
            self.wf(),
        ensures
            r == (self@ == Map::<K, Tally>::empty()),
    {
        let r = self.entries.is_empty();
        proof {
            let none = Map::<K, Tally>::empty();
            if r {
                assert(self@ =~= none);
            } else {
                let c = choose|c: u128| self.entries@.contains_key(c);
                assert(self.entries@.contains_key(c)) by {
                    if forall|d: u128| !self.entries@.contains_key(d) {
                        assert(self.entries@ =~= Map::<u128, (K, Counters)>::empty());
                    }
                }
                assert(self@.contains_key(self.entries@[c].0));
                assert(!none.contains_key(self.entries@[c].0));
            }
        }
        r
    }

    /// Every key with what is counted under it, in no particular order.
    pub fn rows(&self) -> (r: Vec<(K, Counters)>)
        requires
            self.wf(),
        ensures
            lists_all(r@, self@),
            r@.len() == self@.len(),
    {
        let mut out: Vec<(K, Counters)> = Vec::new();
        let ghost all = self.entries@;
        let ghost seen = vstd::std_specs::iter::IteratorSpec::remaining(
            &vstd::std_specs::hash::spec_hash_map_iter(&self.entries),
        );
        for entry in it: self.entries.iter()
            invariant
                it.seq() == seen,
                seen.no_duplicates(),
                out@.len() == it.index(),
                forall|i: int| 0 <= i < out@.len() ==> #[trigger] out@[i] == *seen[i].1,
        {
            out.push(*entry.1);
        }
        proof {
            self.lemma_size();
            assert forall|i: int, j: int| 0 <= i < j < out@.len() implies (#[trigger] out@[i]).0
                != (#[trigger] out@[j]).0 by {
                let x = seen[i];
                let y = seen[j];
                assert(all.contains_key(*x.0) && all.contains_key(*y.0));
                if out@[i].0 == out@[j].0 {
                    assert(*x.0 == *y.0);
                    assert(x == y);
                }
            }
            assert forall|i: int| 0 <= i < out@.len() implies self@.contains_key((#[trigger] out@[i]).0)
                && self@[out@[i].0] == out@[i].1@ by {
                assert(all.contains_key(*seen[i].0));
            }
            assert forall|k: K| #[trigger] self@.contains_key(k) implies exists|i: int|
                0 <= i < out@.len() && (#[trigger] out@[i]).0 == k by {
                let c = k.code();
                assert(all.contains_key(c));
                all[c].0.code_is_injective(k);
                let i = choose|i: int| 0 <= i < seen.len() && seen[i] == (&c, &all[c]);
                assert(out@[i] == all[c]);
            }
        }
        out
    }

    /// There are as many keys as entries.
    proof fn lemma_size(&self)
        requires
            self.wf(),
        ensures
            self@.dom().finite(),
            self@.len() == self.entries@.len(),
    {
        let f = |c: u128| self.entries@[c].0;
        let codes = self.entries@.dom();
        assert(codes.map(f) =~= self@.dom()) by {
            assert forall|k: K| self@.dom().contains(k) implies codes.map(f).contains(k) by {
                assert(codes.contains(k.code()));
                f(k.code()).code_is_injective(k);
            }
            assert forall|k: K| codes.map(f).contains(k) implies self@.dom().contains(k) by {
                let c = choose|c: u128| codes.contains(c) && f(c) == k;
                assert(self.entries@.contains_key(c));
            }
        }
        assert forall|c: u128, d: u128| codes.contains(c) && codes.contains(d) && #[trigger] f(c)
            == #[trigger] f(d) implies c == d by {
            assert(self.entries@.contains_key(c) && self.entries@.contains_key(d));
        }
        vstd::set_lib::lemma_map_size(codes, self@.dom(), f);
    }
}

impl<K: LedgerKey> View for Ledger<K> {
    type V = Map<K, Tally>;

    closed spec fn view(&self) -> Map<K, Tally> {
        Map::new(
            |k: K| self.entries@.contains_key(k.code()),
            |k: K| self.entries@[k.code()].1@,
        )
    }
}

} // verus!
