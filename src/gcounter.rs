//! Delta-state grow-only and positive-negative counters.
use std::collections::BTreeMap;
use vstd::prelude::*;

use crate::clock::{count_of, get_count, max_clock, max_merge, sum_counts, total};
use crate::replica::ReplicaId;

verus! {

broadcast use vstd::std_specs::btree::group_btree_axioms;

/// The view of a counter: its counters and, if any, the counters of its delta.
pub type CounterView = (Map<u64, u64>, Option<Map<u64, u64>>);

/// Pointwise maximum of optional counters; a missing one is neutral.
pub open spec fn opt_max(a: Option<Map<u64, u64>>, b: Option<Map<u64, u64>>) -> Option<Map<u64, u64>> {
    match (a, b) {
        (Some(x), Some(y)) => Some(max_clock(x, y)),
        (Some(x), None) => Some(x),
        (None, Some(y)) => Some(y),
        (None, None) => None,
    }
}

/// The view of the merge of two counters.
pub open spec fn counter_join(a: CounterView, b: CounterView) -> CounterView {
    (max_clock(a.0, b.0), opt_max(a.1, b.1))
}

/// Sum of the counters, saturating at the largest `u64`.
pub open spec fn saturated_total(m: Map<u64, u64>) -> int {
    if total(m) > u64::MAX {
        u64::MAX as int
    } else {
        total(m)
    }
}

/// Grow-only counter: one monotone counter per replica; a delta mirrors the
/// increments since the last split.
#[derive(Debug, Clone, PartialEq)]
pub struct GCounter {
    pub values: BTreeMap<u64, u64>,
    pub delta: Option<BTreeMap<u64, u64>>,
}

impl GCounter {
    pub open spec fn view(&self) -> CounterView {
        (
            self.values@,
            match self.delta {
                Some(d) => Some(d@),
                None => None,
            },
        )
    }

    pub fn new() -> (r: Self)
        ensures
            r.view() == (Map::<u64, u64>::empty(), None::<Map<u64, u64>>),
    {
        GCounter { values: BTreeMap::new(), delta: None }
    }

    /// A copy of the pending delta, as a counter of its own.
    pub fn deltas(&self) -> (r: Option<GCounter>)
        ensures
            (match r {
                Some(d) => Some(d.view()),
                None => None,
            }) == (match self.view().1 {
                Some(d) => Some((d, None::<Map<u64, u64>>)),
                None => None,
            }),
    {
        match &self.delta {
            Some(d) => Some(GCounter { values: d.clone(), delta: None }),
            None => None,
        }
    }

    /// The sum of the counters (saturating).
    pub fn value(&self) -> (r: u64)
        ensures
            r == saturated_total(self.values@),
    {
        sum_counts(&self.values)
    }

    /// Adds one to the counter of `replica`, here and in the delta.
    pub fn increment(&mut self, replica: ReplicaId)
        requires
            count_of(old(self).values@, replica.0) < u64::MAX,
            old(self).view().1 matches Some(d) ==> count_of(d, replica.0) < u64::MAX,
        ensures
            final(self).values@ == old(self).values@.insert(
                replica.0,
                (count_of(old(self).values@, replica.0) + 1) as u64,
            ),
            final(self).view().1 == Some(
                match old(self).view().1 {
                    Some(d) => d,
                    None => Map::<u64, u64>::empty(),
                }.insert(
                    replica.0,
                    (match old(self).view().1 {
                        Some(d) => count_of(d, replica.0),
                        None => 0,
                    } + 1) as u64,
                ),
            ),
    {
        let c = get_count(&self.values, replica.0);
        self.values.insert(replica.0, c + 1);
        let mut d = match self.delta.take() {
            Some(d) => d,
            None => BTreeMap::new(),
        };
        let dc = get_count(&d, replica.0);
        d.insert(replica.0, dc + 1);
        self.delta = Some(d);
    }

    /// Pointwise maximum of the counters, and of the deltas where present.
    pub fn merge_impl(a: &Self, b: &Self) -> (r: Self)
        ensures
            r.view() == counter_join(a.view(), b.view()),
    {
        let values = max_merge(&a.values, &b.values);
        let delta = match (&a.delta, &b.delta) {
            (Some(x), Some(y)) => Some(max_merge(x, y)),
            (Some(x), None) => Some(x.clone()),
            (None, Some(y)) => Some(y.clone()),
            (None, None) => None,
        };
        GCounter { values, delta }
    }

    pub fn merge(&self, other: &Self) -> (r: Self)
        ensures
            r.view() == counter_join(self.view(), other.view()),
    {
        Self::merge_impl(self, other)
    }

    /// Merges a delta received from a peer.
    pub fn merge_deltas(&self, delta: &GCounter) -> (r: Self)
        ensures
            r.view() == counter_join(self.view(), delta.view()),
    {
        Self::merge_impl(self, delta)
    }

    /// A copy without the delta, and a copy of the delta as a counter of its own.
    pub fn split(&self) -> (r: (Self, Option<GCounter>))
        ensures
            r.0.view() == (self.values@, None::<Map<u64, u64>>),
            (match r.1 {
                Some(d) => Some(d.view()),
                None => None,
            }) == (match self.view().1 {
                Some(d) => Some((d, None::<Map<u64, u64>>)),
                None => None,
            }),
    {
        (GCounter { values: self.values.clone(), delta: None }, self.deltas())
    }

    /// The counter without the delta, and the delta as a counter of its own.
    pub fn split_owned(self) -> (r: (Self, Option<GCounter>))
        ensures
            r.0.view() == (self.values@, None::<Map<u64, u64>>),
            (match r.1 {
                Some(d) => Some(d.view()),
                None => None,
            }) == (match self.view().1 {
                Some(d) => Some((d, None::<Map<u64, u64>>)),
                None => None,
            }),
    {
        let delta = match self.delta {
            Some(d) => Some(GCounter { values: d, delta: None }),
            None => None,
        };
        (GCounter { values: self.values, delta: None }, delta)
    }

    /// As `split`, for a counter whose delta is there.
    pub fn split_expect(&self) -> (r: (Self, GCounter))
        requires
            self.delta is Some,
        ensures
            r.0.view() == (self.values@, None::<Map<u64, u64>>),
            Some(r.1.values@) == self.view().1,
            r.1.delta is None,
    {
        let (c, d) = self.split();
        match d {
            Some(d) => (c, d),
            None => (c, GCounter::new()),
        }
    }

    /// A counter with `v` increments, at least one, by each replica `k` of `map`.
    pub fn from_u64_map(map: BTreeMap<u64, u8>) -> (r: Self)
        ensures
            forall|k: u64| #[trigger] r.values@.contains_key(k) <==> map@.contains_key(k),
            forall|k: u64|
                map@.contains_key(k) ==> #[trigger] r.values@[k] == if map@[k] == 0 { 1 } else { map@[k] },
            r.view().1 == Some(r.values@),
    {
        let mut values: BTreeMap<u64, u64> = BTreeMap::new();
        for (k, v) in it: map.iter()
            invariant
                forall|x: u64| #[trigger] values@.contains_key(x) ==> map@.contains_key(x),
                forall|x: u64|
                    values@.contains_key(x) ==> #[trigger] values@[x] == if map@[x] == 0 { 1 } else { map@[x] },
                forall|i: int|
                    0 <= i < it.seq().len() ==> #[trigger] map@.contains_key(*it.seq()[i].0)
                        && map@[*it.seq()[i].0] == *it.seq()[i].1,
                forall|i: int| 0 <= i < it.index() ==> values@.contains_key(*it.seq()[i].0),
                it.index() == it.seq().len() ==> forall|x: u64| #[trigger] map@.contains_key(x) ==> values@.contains_key(x),
        {
            assert(map@.contains_key(*k) && map@[*k] == *v) by {
                assert(*it.seq()[it.index() as int].0 == *k);
            }
            let n: u64 = if *v == 0 { 1 } else { *v as u64 };
            values.insert(*k, n);
            assert forall|x: u64|
                it.index() + 1 == it.seq().len() && #[trigger] map@.contains_key(x) implies values@.contains_key(x) by {
                assert(it.seq().contains((&x, &map@[x])));
                let j = choose|j: int| 0 <= j < it.seq().len() && it.seq()[j] == (&x, &map@[x]);
                assert(*it.seq()[j].0 == x);
            }
        }
        let delta = values.clone();
        GCounter { values, delta: Some(delta) }
    }
}

impl Default for GCounter {
    fn default() -> (r: Self)
        ensures
            r.view() == (Map::<u64, u64>::empty(), None::<Map<u64, u64>>),
    {
        GCounter::new()
    }
}

/// Positive-negative counter: a pair of grow-only counters, increments and decrements.
#[derive(Debug, Clone, PartialEq)]
pub struct PNCounter {
    pub inc: GCounter,
    pub dec: GCounter,
}

impl PNCounter {
    pub open spec fn view(&self) -> (CounterView, CounterView) {
        (self.inc.view(), self.dec.view())
    }

    pub fn new(inc: GCounter, dec: GCounter) -> (r: Self)
        ensures
            r.inc == inc,
            r.dec == dec,
    {
        PNCounter { inc, dec }
    }

    /// Increments minus decrements.
    pub fn value(&self) -> (r: i128)
        ensures
            r == saturated_total(self.inc.values@) - saturated_total(self.dec.values@),
    {
        self.inc.value() as i128 - self.dec.value() as i128
    }

    pub fn increment(&mut self, replica: ReplicaId)
        requires
            count_of(old(self).inc.values@, replica.0) < u64::MAX,
            old(self).inc.view().1 matches Some(d) ==> count_of(d, replica.0) < u64::MAX,
        ensures
            final(self).inc.values@ == old(self).inc.values@.insert(
                replica.0,
                (count_of(old(self).inc.values@, replica.0) + 1) as u64,
            ),
            final(self).dec == old(self).dec,
    {
        self.inc.increment(replica)
    }

    pub fn decrement(&mut self, replica: ReplicaId)
        requires
            count_of(old(self).dec.values@, replica.0) < u64::MAX,
            old(self).dec.view().1 matches Some(d) ==> count_of(d, replica.0) < u64::MAX,
        ensures
            final(self).dec.values@ == old(self).dec.values@.insert(
                replica.0,
                (count_of(old(self).dec.values@, replica.0) + 1) as u64,
            ),
            final(self).inc == old(self).inc,
    {
        self.dec.increment(replica)
    }

    pub fn merge(&self, other: &Self) -> (r: Self)
        ensures
            r.view() == (counter_join(self.view().0, other.view().0), counter_join(self.view().1, other.view().1)),
    {
        PNCounter { inc: self.inc.merge(&other.inc), dec: self.dec.merge(&other.dec) }
    }

    /// A copy without deltas, and the deltas of both sides, if either has one.
    pub fn split(&self) -> (r: (Self, Option<PNCounter>))
        ensures
            r.0.view() == ((self.inc.values@, None::<Map<u64, u64>>), (self.dec.values@, None::<Map<u64, u64>>)),
            r.1 is None <==> (self.inc.delta is None && self.dec.delta is None),
            r.1 matches Some(d) ==> d.inc.values@ == (match self.inc.view().1 { Some(m) => m, None => Map::empty() })
                && d.dec.values@ == (match self.dec.view().1 { Some(m) => m, None => Map::empty() }),
    {
        let (inc, inc_deltas) = self.inc.split();
        let (dec, dec_deltas) = self.dec.split();
        let deltas = match (inc_deltas, dec_deltas) {
            (None, None) => None,
            (a, b) => Some(
                PNCounter {
                    inc: match a {
                        Some(x) => x,
                        None => GCounter::new(),
                    },
                    dec: match b {
                        Some(x) => x,
                        None => GCounter::new(),
                    },
                },
            ),
        };
        (PNCounter { inc, dec }, deltas)
    }

    /// As `split`, for a counter that has a delta.
    pub fn split_expect(&self) -> (r: (Self, PNCounter))
        requires
            !(self.inc.delta is None && self.dec.delta is None),
        ensures
            r.0.view() == ((self.inc.values@, None::<Map<u64, u64>>), (self.dec.values@, None::<Map<u64, u64>>)),
            r.1.inc.values@ == (match self.inc.view().1 { Some(m) => m, None => Map::empty() }),
            r.1.dec.values@ == (match self.dec.view().1 { Some(m) => m, None => Map::empty() }),
    {
        let (counter, deltas) = self.split();
        match deltas {
            Some(d) => (counter, d),
            None => (counter, PNCounter { inc: GCounter::new(), dec: GCounter::new() }),
        }
    }
}

impl Default for PNCounter {
    fn default() -> (r: Self)
        ensures
            r.view() == ((Map::<u64, u64>::empty(), None::<Map<u64, u64>>), (Map::<u64, u64>::empty(), None::<Map<u64, u64>>)),
    {
        PNCounter { inc: GCounter::new(), dec: GCounter::new() }
    }
}

/// Pointwise maximum of clock maps is commutative, associative and idempotent.
pub proof fn lemma_max_clock_laws(a: Map<u64, u64>, b: Map<u64, u64>, c: Map<u64, u64>)
    ensures
        max_clock(a, b) == max_clock(b, a),
        max_clock(max_clock(a, b), c) == max_clock(a, max_clock(b, c)),
        max_clock(a, a) == a,
{
    assert(max_clock(a, b) =~= max_clock(b, a));
    assert(max_clock(max_clock(a, b), c) =~= max_clock(a, max_clock(b, c)));
    assert(max_clock(a, a) =~= a);
}

/// Merging grow-only counters, deltas included, is commutative, associative and idempotent.
pub proof fn lemma_counter_join_laws(a: CounterView, b: CounterView, c: CounterView)
    ensures
        counter_join(a, b) == counter_join(b, a),
        counter_join(counter_join(a, b), c) == counter_join(a, counter_join(b, c)),
        counter_join(a, a) == a,
{
    lemma_max_clock_laws(a.0, b.0, c.0);
    match (a.1, b.1, c.1) {
        (Some(x), Some(y), Some(z)) => lemma_max_clock_laws(x, y, z),
        (Some(x), Some(y), None) => lemma_max_clock_laws(x, y, y),
        (Some(x), None, Some(z)) => lemma_max_clock_laws(x, z, z),
        (None, Some(y), Some(z)) => lemma_max_clock_laws(y, z, z),
        (Some(x), None, None) => lemma_max_clock_laws(x, x, x),
        _ => {},
    }
}

/// Merging positive-negative counters is commutative, associative and idempotent.
pub proof fn lemma_pncounter_join_laws(
    a: (CounterView, CounterView),
    b: (CounterView, CounterView),
    c: (CounterView, CounterView),
)
    ensures
        (counter_join(a.0, b.0), counter_join(a.1, b.1)) == (counter_join(b.0, a.0), counter_join(b.1, a.1)),
        (counter_join(counter_join(a.0, b.0), c.0), counter_join(counter_join(a.1, b.1), c.1)) == (
            counter_join(a.0, counter_join(b.0, c.0)),
            counter_join(a.1, counter_join(b.1, c.1)),
        ),
        (counter_join(a.0, a.0), counter_join(a.1, a.1)) == a,
{
    lemma_counter_join_laws(a.0, b.0, c.0);
    lemma_counter_join_laws(a.1, b.1, c.1);
}

} // verus!
