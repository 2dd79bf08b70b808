//! State-based counters and the vector clock built on them.
use std::cmp::Ordering;
use std::collections::BTreeMap;
use vstd::prelude::*;

use crate::clock::{clock_cmp, compare_clocks, count_of, get_count, max_clock, max_merge, sum_counts};
use crate::gcounter::saturated_total;
use crate::replica::ReplicaId;

verus! {

broadcast use vstd::std_specs::btree::group_btree_axioms;

/// Grow-only counter: one monotone counter per replica.
#[derive(Clone, Debug, PartialEq)]
pub struct GrowCounter {
    pub map: BTreeMap<u64, u64>,
}

impl GrowCounter {
    pub fn new() -> (r: Self)
        ensures
            r.map@ == Map::<u64, u64>::empty(),
    {
        GrowCounter { map: BTreeMap::new() }
    }

    /// A counter holding the given counters; a later pair for a replica replaces an earlier one.
    pub fn from_iter(pairs: Vec<(ReplicaId, u64)>) -> (r: Self)
        ensures
            forall|k: u64| #[trigger] r.map@.contains_key(k) <==> exists|i: int| 0 <= i < pairs.len() && pairs[i].0.0 == k,
            forall|i: int|
                0 <= i < pairs.len() && (forall|j: int| i < j < pairs.len() ==> pairs[j].0.0 != pairs[i].0.0)
                    ==> r.map@[#[trigger] pairs[i].0.0] == pairs[i].1,
    {
        let mut map: BTreeMap<u64, u64> = BTreeMap::new();
        let mut i: usize = 0;
        while i < pairs.len()
            invariant
                0 <= i <= pairs.len(),
                forall|k: u64| #[trigger] map@.contains_key(k) <==> exists|j: int| 0 <= j < i && pairs[j].0.0 == k,
                forall|j: int|
                    0 <= j < i && (forall|m: int| j < m < i ==> pairs[m].0.0 != pairs[j].0.0)
                        ==> map@[#[trigger] pairs[j].0.0] == pairs[j].1,
            decreases pairs.len() - i,
        {
            map.insert(pairs[i].0.0, pairs[i].1);
            i = i + 1;
        }
        GrowCounter { map }
    }

    /// The sum of the counters (saturating).
    pub fn value(&self) -> (r: u64)
        ensures
            r == saturated_total(self.map@),
    {
        sum_counts(&self.map)
    }

    /// Adds one to the counter of `replica` and returns its new value.
    pub fn increment(&mut self, replica: ReplicaId) -> (r: u64)
        requires
            count_of(old(self).map@, replica.0) < u64::MAX,
        ensures
            r == count_of(old(self).map@, replica.0) + 1,
            final(self).map@ == old(self).map@.insert(replica.0, r),
    {
        let c = get_count(&self.map, replica.0) + 1;
        self.map.insert(replica.0, c);
        c
    }

    /// Pointwise maximum.
    pub fn merge(&self, other: &Self) -> (r: GrowCounter)
        ensures
            r.map@ == max_clock(self.map@, other.map@),
    {
        GrowCounter { map: max_merge(&self.map, &other.map) }
    }

    pub fn from_u64_map(map: BTreeMap<u64, u64>) -> (r: Self)
        ensures
            r.map@ == map@,
    {
        GrowCounter { map }
    }
}

impl Default for GrowCounter {
    fn default() -> (r: Self)
        ensures
            r.map@ == Map::<u64, u64>::empty(),
    {
        GrowCounter::new()
    }
}

/// Vector clock: a grow-only counter read as logical time, partially ordered.
#[derive(Clone, Debug)]
pub struct VectorClock(pub GrowCounter);

impl View for VectorClock {
    type V = Map<u64, u64>;

    open spec fn view(&self) -> Map<u64, u64> {
        self.0.map@
    }
}

impl VectorClock {
    pub fn new(grow: GrowCounter) -> (r: Self)
        ensures
            r@ == grow.map@,
    {
        VectorClock(grow)
    }

    /// Equal, before, after, or `None` when the two clocks are concurrent.
    pub fn partial_ord_impl(a: &Self, b: &Self) -> (r: Option<Ordering>)
        ensures
            r == clock_cmp(a@, b@),
    {
        compare_clocks(&a.0.map, &b.0.map)
    }

    pub fn merge(&self, other: &Self) -> (r: Self)
        ensures
            r@ == max_clock(self@, other@),
    {
        VectorClock(self.0.merge(&other.0))
    }

    pub fn increment(&mut self, replica: ReplicaId)
        requires
            count_of(old(self)@, replica.0) < u64::MAX,
        ensures
            final(self)@ == old(self)@.insert(replica.0, (count_of(old(self)@, replica.0) + 1) as u64),
    {
        self.0.increment(replica);
    }

    /// The counter of `replica`, zero when it is missing.
    pub fn get(&self, replica: ReplicaId) -> (r: u64)
        ensures
            r == count_of(self@, replica.0),
    {
        get_count(&self.0.map, replica.0)
    }
}

impl Default for VectorClock {
    fn default() -> (r: Self)
        ensures
            r@ == Map::<u64, u64>::empty(),
    {
        VectorClock(GrowCounter::new())
    }
}

impl PartialEq for VectorClock {
    fn eq(&self, other: &Self) -> (r: bool) {
        match Self::partial_ord_impl(self, other) {
            Some(Ordering::Equal) => true,
            _ => false,
        }
    }
}

impl vstd::std_specs::cmp::PartialEqSpecImpl for VectorClock {
    open spec fn obeys_eq_spec() -> bool {
        true
    }

    open spec fn eq_spec(&self, other: &VectorClock) -> bool {
        clock_cmp(self@, other@) == Some(Ordering::Equal)
    }
}

impl PartialOrd for VectorClock {
    fn partial_cmp(&self, other: &Self) -> (r: Option<Ordering>) {
        Self::partial_ord_impl(self, other)
    }
}

impl vstd::std_specs::cmp::PartialOrdSpecImpl for VectorClock {
    open spec fn obeys_partial_cmp_spec() -> bool {
        true
    }

    open spec fn partial_cmp_spec(&self, other: &VectorClock) -> Option<Ordering> {
        clock_cmp(self@, other@)
    }
}

/// Positive-negative counter: a pair of grow-only counters.
#[derive(Default, Debug, Clone, PartialEq)]
pub struct PNCounter {
    pub incr: GrowCounter,
    pub decr: GrowCounter,
}

impl PNCounter {
    pub fn new() -> (r: Self)
        ensures
            r.incr.map@ == Map::<u64, u64>::empty(),
            r.decr.map@ == Map::<u64, u64>::empty(),
    {
        PNCounter { incr: GrowCounter::new(), decr: GrowCounter::new() }
    }

    pub fn new_from_incr_decr(incr: GrowCounter, decr: GrowCounter) -> (r: Self)
        ensures
            r.incr == incr,
            r.decr == decr,
    {
        PNCounter { incr, decr }
    }

    /// Increments minus decrements.
    pub fn value(&self) -> (r: i128)
        ensures
            r == saturated_total(self.incr.map@) - saturated_total(self.decr.map@),
    {
        self.incr.value() as i128 - self.decr.value() as i128
    }

    pub fn increment(&mut self, replica: ReplicaId)
        requires
            count_of(old(self).incr.map@, replica.0) < u64::MAX,
        ensures
            final(self).incr.map@ == old(self).incr.map@.insert(
                replica.0,
                (count_of(old(self).incr.map@, replica.0) + 1) as u64,
            ),
            final(self).decr == old(self).decr,
    {
        self.incr.increment(replica);
    }

    pub fn decrement(&mut self, replica: ReplicaId)
        requires
            count_of(old(self).decr.map@, replica.0) < u64::MAX,
        ensures
            final(self).decr.map@ == old(self).decr.map@.insert(
                replica.0,
                (count_of(old(self).decr.map@, replica.0) + 1) as u64,
            ),
            final(self).incr == old(self).incr,
    {
        self.decr.increment(replica);
    }

    pub fn merge(&self, other: &Self) -> (r: Self)
        ensures
            r.incr.map@ == max_clock(self.incr.map@, other.incr.map@),
            r.decr.map@ == max_clock(self.decr.map@, other.decr.map@),
    {
        PNCounter { incr: self.incr.merge(&other.incr), decr: self.decr.merge(&other.decr) }
    }
}

} // verus!
