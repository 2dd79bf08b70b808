//! Operation-based observed-remove set: each element carries the version it was added at.
use std::cmp::Ordering;
use vstd::prelude::*;

use crate::clock::clock_cmp;
use crate::replica::{distinct, has_same, Value};
use crate::replicator::{Crdt, Event, EventData, VTime};

verus! {

/// The version an element was added at; two are equal when the clocks are.
#[derive(Clone, Debug)]
pub struct ClockWrapper(pub VTime);

pub enum Command<V> {
    Add(V),
    Remove(V),
}

pub enum Op<V> {
    Added(V),
    Removed(Vec<ClockWrapper>),
}

impl<V: Value> EventData for Op<V> {
    fn duplicate(&self) -> Self {
        match self {
            Op::Added(v) => Op::Added(v.duplicate()),
            Op::Removed(cs) => {
                let mut r: Vec<ClockWrapper> = Vec::new();
                let mut i: usize = 0;
                while i < cs.len()
                    decreases cs.len() - i,
                {
                    r.push(ClockWrapper(cs[i].0.duplicate()));
                    i = i + 1;
                }
                Op::Removed(r)
            },
        }
    }
}

/// Whether some clock of `cs` equals `c`.
pub open spec fn listed(cs: Seq<ClockWrapper>, c: Map<u64, u64>) -> bool {
    exists|i: int| 0 <= i < cs.len() && clock_cmp(cs[i].0@, c) == Some(Ordering::Equal)
}

/// Whether some entry of `values` holds `v` added at `c`.
pub open spec fn entry_of<V>(values: Seq<(V, VTime)>, v: V, c: Map<u64, u64>) -> bool {
    exists|i: int| 0 <= i < values.len() && values[i].0 == v && values[i].1@ == c
}

/// Whether some entry holds `v`.
pub open spec fn holds<V>(values: Seq<(V, VTime)>, v: V) -> bool {
    exists|i: int| 0 <= i < values.len() && values[i].0 == v
}

/// Whether some entry holding the same value as `v` was added at `c`.
pub open spec fn clock_of_same<V: Value>(values: Seq<(V, VTime)>, v: V, c: Map<u64, u64>) -> bool {
    exists|i: int| 0 <= i < values.len() && values[i].0.same(&v) && values[i].1@ == c
}

/// Whether some entry holds the same value as `v`, added at a clock equal to `c`.
pub open spec fn present<V: Value>(values: Seq<(V, VTime)>, v: V, c: Map<u64, u64>) -> bool {
    exists|j: int|
        0 <= j < values.len() && #[trigger] values[j].0.same(&v) && clock_cmp(values[j].1@, c) == Some(
            Ordering::Equal,
        )
}

/// Observed-remove set; a remove drops only the adds it has observed, so a concurrent
/// add wins.
#[derive(Clone, Debug)]
pub struct ORSet<V> {
    pub values: Vec<(V, VTime)>,
}

impl<V: Value> ORSet<V> {
    pub fn new() -> (r: Self)
        ensures
            r.values.len() == 0,
    {
        ORSet { values: Vec::new() }
    }

    /// The clocks of the entries holding `v`.
    pub fn clocks_of(&self, v: &V) -> (r: Vec<ClockWrapper>)
        ensures
            forall|i: int|
                0 <= i < self.values.len() && self.values[i].0.same(v) ==> listed(r@, #[trigger] self.values[i].1@),
            forall|k: int| 0 <= k < r.len() ==> clock_of_same(self.values@, *v, #[trigger] r[k].0@),
    {
        let mut r: Vec<ClockWrapper> = Vec::new();
        let mut i: usize = 0;
        while i < self.values.len()
            invariant
                0 <= i <= self.values.len(),
                forall|j: int| 0 <= j < i && self.values[j].0.same(v) ==> listed(r@, #[trigger] self.values[j].1@),
                forall|k: int| 0 <= k < r.len() ==> clock_of_same(self.values@, *v, #[trigger] r[k].0@),
            decreases self.values.len() - i,
        {
            let ghost before = r@;
            if self.values[i].0.same_value(v) {
                r.push(ClockWrapper(self.values[i].1.duplicate()));
                proof {
                    crate::clock::lemma_clock_cmp_refl(self.values[i as int].1@);
                    assert(clock_cmp(r[r.len() - 1].0@, self.values[i as int].1@) == Some(Ordering::Equal));
                }
            }
            assert forall|j: int| 0 <= j < i + 1 && self.values[j].0.same(v) implies listed(r@, #[trigger] self.values[j].1@) by {
                if j < i {
                    let k = choose|k: int| 0 <= k < before.len() && clock_cmp(before[k].0@, self.values[j].1@) == Some(Ordering::Equal);
                    assert(r[k] == before[k]);
                }
            }
            i = i + 1;
        }
        r
    }

    /// Adds `v` at version `at`, unless the same element at the same clock is there.
    pub fn apply_added(&mut self, v: V, at: VTime)
        ensures
            present(old(self).values@, v, at@) ==> final(self).values@ == old(self).values@,
            !present(old(self).values@, v, at@) ==> final(self).values@ == old(self).values@.push((v, at)),
    {
        let mut i: usize = 0;
        let mut found = false;
        while i < self.values.len()
            invariant
                0 <= i <= self.values.len(),
                self.values == old(self).values,
                found == exists|j: int|
                    0 <= j < i && #[trigger] self.values[j].0.same(&v) && clock_cmp(self.values[j].1@, at@) == Some(
                        Ordering::Equal,
                    ),
            decreases self.values.len() - i,
        {
            if self.values[i].0.same_value(&v) {
                match VTime::partial_ord_impl(&self.values[i].1, &at) {
                    Some(Ordering::Equal) => {
                        found = true;
                    },
                    _ => {},
                }
            }
            i = i + 1;
        }
        if !found {
            self.values.push((v, at));
        }
    }

    /// Drops every entry whose clock is listed in `removed`.
    pub fn apply_removed(&mut self, removed: &Vec<ClockWrapper>)
        ensures
            forall|i: int|
                0 <= i < final(self).values.len() ==> !listed(removed@, #[trigger] final(self).values[i].1@)
                    && entry_of(old(self).values@, final(self).values[i].0, final(self).values[i].1@),
            forall|i: int|
                0 <= i < old(self).values.len() && !listed(removed@, #[trigger] old(self).values[i].1@) ==> entry_of(
                    final(self).values@,
                    old(self).values[i].0,
                    old(self).values[i].1@,
                ),
    {
        let mut kept: Vec<(V, VTime)> = Vec::new();
        let mut i: usize = 0;
        while i < self.values.len()
            invariant
                0 <= i <= self.values.len(),
                self.values == old(self).values,
                forall|k: int|
                    0 <= k < kept.len() ==> !listed(removed@, #[trigger] kept[k].1@) && entry_of(
                        old(self).values@,
                        kept[k].0,
                        kept[k].1@,
                    ),
                forall|j: int|
                    0 <= j < i && !listed(removed@, #[trigger] self.values[j].1@) ==> entry_of(
                        kept@,
                        self.values[j].0,
                        self.values[j].1@,
                    ),
            decreases self.values.len() - i,
        {
            let mut hit = false;
            let mut k: usize = 0;
            while k < removed.len()
                invariant
                    0 <= k <= removed.len(),
                    i < self.values.len(),
                    hit == exists|m: int| 0 <= m < k && clock_cmp(removed[m].0@, self.values[i as int].1@) == Some(Ordering::Equal),
                decreases removed.len() - k,
            {
                match VTime::partial_ord_impl(&removed[k].0, &self.values[i].1) {
                    Some(Ordering::Equal) => {
                        hit = true;
                    },
                    _ => {},
                }
                k = k + 1;
            }
            let ghost before = kept@;
            if !hit {
                let e = (self.values[i].0.duplicate(), self.values[i].1.duplicate());
                kept.push(e);
                assert(kept[kept.len() - 1].0 == self.values[i as int].0);
            }
            assert forall|j: int|
                0 <= j < i + 1 && !listed(removed@, #[trigger] self.values[j].1@) implies entry_of(
                kept@,
                self.values[j].0,
                self.values[j].1@,
            ) by {
                if j < i {
                    let m = choose|m: int| 0 <= m < before.len() && before[m].0 == self.values[j].0 && before[m].1@ == self.values[j].1@;
                    assert(kept[m] == before[m]);
                } else {
                    assert(kept[kept.len() - 1].0 == self.values[j].0);
                }
            }
            i = i + 1;
        }
        self.values = kept;
    }

    /// The elements present, each once.
    pub fn query_values(&self) -> (r: Vec<V>)
        ensures
            forall|k: int| 0 <= k < r.len() ==> holds(self.values@, #[trigger] r[k]),
            forall|i: int| 0 <= i < self.values.len() ==> has_same(r@, #[trigger] self.values[i].0),
            forall|a: int, b: int| 0 <= a < b < r.len() ==> !r[a].same(&r[b]),
    {
        let mut all: Vec<V> = Vec::new();
        let mut i: usize = 0;
        while i < self.values.len()
            invariant
                0 <= i <= self.values.len(),
                all.len() == i,
                forall|k: int| 0 <= k < i ==> all[k] == self.values[k].0,
            decreases self.values.len() - i,
        {
            all.push(self.values[i].0.duplicate());
            i = i + 1;
        }
        let r = distinct(&all);
        assert forall|k: int| 0 <= k < r.len() implies holds(self.values@, #[trigger] r[k]) by {
            let j = choose|j: int| 0 <= j < all.len() && all[j] == r[k];
            assert(self.values[j].0 == r[k]);
        }
        assert forall|i: int| 0 <= i < self.values.len() implies has_same(r@, #[trigger] self.values[i].0) by {
            assert(all[i] == self.values[i].0);
        }
        r
    }
}

impl<V: Value> Crdt for ORSet<V> {
    type State = Vec<V>;

    type EData = Op<V>;

    type Cmd = Command<V>;

    open spec fn ready(&self, op: &Command<V>) -> bool {
        true
    }

    open spec fn prepares(&self, op: Command<V>, r: Op<V>) -> bool {
        match op {
            Command::Add(v) => r == Op::Added(v),
            Command::Remove(v) => match r {
                Op::Removed(cs) => {
                    &&& forall|i: int|
                        0 <= i < self.values.len() && self.values[i].0.same(&v) ==> listed(
                            cs@,
                            #[trigger] self.values[i].1@,
                        )
                    &&& forall|k: int| 0 <= k < cs.len() ==> clock_of_same(self.values@, v, #[trigger] cs[k].0@)
                },
                _ => false,
            },
        }
    }

    open spec fn applies(&self, e: Event<Op<V>>, next: Self) -> bool {
        match e.data {
            Op::Added(v) => {
                &&& present(self.values@, v, e.version@) ==> next.values@ == self.values@
                &&& !present(self.values@, v, e.version@) ==> next.values@ == self.values@.push((v, e.version))
            },
            Op::Removed(cs) => {
                &&& forall|i: int|
                    0 <= i < next.values.len() ==> !listed(cs@, #[trigger] next.values[i].1@) && entry_of(
                        self.values@,
                        next.values[i].0,
                        next.values[i].1@,
                    )
                &&& forall|i: int|
                    0 <= i < self.values.len() && !listed(cs@, #[trigger] self.values[i].1@) ==> entry_of(
                        next.values@,
                        self.values[i].0,
                        self.values[i].1@,
                    )
            },
        }
    }

    open spec fn answers(&self, r: Vec<V>) -> bool {
        &&& forall|k: int| 0 <= k < r.len() ==> holds(self.values@, #[trigger] r[k])
        &&& forall|i: int| 0 <= i < self.values.len() ==> has_same(r@, #[trigger] self.values[i].0)
        &&& forall|a: int, b: int| 0 <= a < b < r.len() ==> !r[a].same(&r[b])
    }

    fn query(&self) -> Vec<V> {
        self.query_values()
    }

    fn prepare(&self, op: Command<V>) -> Op<V> {
        match op {
            Command::Add(v) => Op::Added(v),
            Command::Remove(v) => Op::Removed(self.clocks_of(&v)),
        }
    }

    fn effect(&mut self, event: Event<Op<V>>) {
        match event.data {
            Op::Added(v) => self.apply_added(v, event.version),
            Op::Removed(cs) => self.apply_removed(&cs),
        }
    }

    fn duplicate(&self) -> Self {
        let mut values: Vec<(V, VTime)> = Vec::new();
        let mut i: usize = 0;
        while i < self.values.len()
            decreases self.values.len() - i,
        {
            values.push((self.values[i].0.duplicate(), self.values[i].1.duplicate()));
            i = i + 1;
        }
        ORSet { values }
    }
}

} // verus!
