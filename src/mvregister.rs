//! Operation-based multi-value register.
use std::cmp::Ordering;
use vstd::prelude::*;

use crate::clock::clock_cmp;
use crate::replica::Value;
use crate::replicator::{Crdt, Event, EventData, VTime};

verus! {

/// Some kept write holds `v`.
pub open spec fn written<V>(values: Seq<(VTime, Option<V>)>, v: V) -> bool {
    exists|j: int| 0 <= j < values.len() && values[j].1 == Some(v)
}

/// A register keeping every write that no later write has replaced.
#[derive(Clone, Debug, Default)]
pub struct MVRegister<V> {
    pub values: Vec<(VTime, Option<V>)>,
}

impl<V: Value> MVRegister<V> {
    pub fn new() -> (r: Self)
        ensures
            r.values.len() == 0,
    {
        MVRegister { values: Vec::new() }
    }

    /// Applies a write at version `at`: the new write, then every stored write
    /// concurrent with it; the writes it dominates are dropped.
    pub fn apply(&mut self, at: VTime, value: Option<V>)
        ensures
            final(self).values.len() >= 1,
            final(self).values[0].0@ == at@,
            final(self).values[0].1 == value,
            forall|i: int|
                1 <= i < final(self).values.len() ==> clock_cmp(#[trigger] final(self).values[i].0@, at@) is None,
            forall|i: int|
                0 <= i < old(self).values.len() && clock_cmp(#[trigger] old(self).values[i].0@, at@) is None
                    ==> exists|j: int| 1 <= j < final(self).values.len() && final(self).values[j].0@
                    == old(self).values[i].0@ && final(self).values[j].1 == old(self).values[i].1,
    {
        let mut kept: Vec<(VTime, Option<V>)> = Vec::new();
        kept.push((at.duplicate(), value));
        let mut i: usize = 0;
        while i < self.values.len()
            invariant
                0 <= i <= self.values.len(),
                self.values == old(self).values,
                kept.len() >= 1,
                kept[0].0@ == at@,
                kept[0].1 == value,
                forall|k: int| 1 <= k < kept.len() ==> clock_cmp(#[trigger] kept[k].0@, at@) is None,
                forall|k: int|
                    0 <= k < i && clock_cmp(#[trigger] self.values[k].0@, at@) is None ==> exists|j: int|
                        1 <= j < kept.len() && kept[j].0@ == self.values[k].0@ && kept[j].1 == self.values[k].1,
            decreases self.values.len() - i,
        {
            let ghost before = kept@;
            if VTime::partial_ord_impl(&self.values[i].0, &at).is_none() {
                let entry = (self.values[i].0.duplicate(), self.values[i].1.duplicate_value());
                kept.push(entry);
            }
            assert forall|k: int|
                0 <= k < i + 1 && clock_cmp(#[trigger] self.values[k].0@, at@) is None implies exists|j: int|
                1 <= j < kept.len() && kept[j].0@ == self.values[k].0@ && kept[j].1 == self.values[k].1 by {
                if k < i {
                    let j = choose|j: int| 1 <= j < before.len() && before[j].0@ == self.values[k].0@ && before[j].1 == self.values[k].1;
                    assert(kept[j] == before[j]);
                } else {
                    assert(kept[kept.len() - 1].0@ == self.values[k].0@);
                }
            }
            i = i + 1;
        }
        self.values = kept;
    }

    /// The values written, one per kept write.
    pub fn query_values(&self) -> (r: Vec<V>)
        ensures
            forall|i: int| 0 <= i < r.len() ==> written(self.values@, #[trigger] r[i]),
            forall|j: int|
                0 <= j < self.values.len() && #[trigger] self.values[j].1 is Some ==> r@.contains(
                    self.values[j].1->Some_0,
                ),
    {
        let mut r: Vec<V> = Vec::new();
        let mut i: usize = 0;
        while i < self.values.len()
            invariant
                0 <= i <= self.values.len(),
                forall|k: int| 0 <= k < r.len() ==> written(self.values@, #[trigger] r[k]),
                forall|j: int|
                    0 <= j < i && #[trigger] self.values[j].1 is Some ==> r@.contains(self.values[j].1->Some_0),
            decreases self.values.len() - i,
        {
            let ghost before = r@;
            match &self.values[i].1 {
                Some(v) => {
                    let c = v.duplicate();
                    r.push(c);
                    assert(self.values[i as int].1 == Some(r[r.len() - 1]));
                },
                None => {},
            }
            assert forall|j: int|
                0 <= j < i + 1 && #[trigger] self.values[j].1 is Some implies r@.contains(self.values[j].1->Some_0) by {
                if j < i {
                    let k = choose|k: int| 0 <= k < before.len() && before[k] == self.values[j].1->Some_0;
                    assert(r[k] == before[k]);
                } else {
                    assert(r[r.len() - 1] == self.values[j].1->Some_0);
                }
            }
            i = i + 1;
        }
        r
    }
}

/// Exact copy of an optional value.
pub trait DuplicateValue: Sized {
    fn duplicate_value(&self) -> (r: Self)
        ensures
            r == *self,
    ;
}

impl<V: Value> DuplicateValue for Option<V> {
    fn duplicate_value(&self) -> (r: Self) {
        match self {
            Some(v) => Some(v.duplicate()),
            None => None,
        }
    }
}

impl<V: Value> Crdt for MVRegister<V> {
    type State = Vec<V>;

    type EData = Option<V>;

    type Cmd = Option<V>;

    open spec fn ready(&self, op: &Option<V>) -> bool {
        true
    }

    open spec fn prepares(&self, op: Option<V>, r: Option<V>) -> bool {
        r == op
    }

    open spec fn applies(&self, e: Event<Option<V>>, next: Self) -> bool {
        &&& next.values.len() >= 1
        &&& next.values[0].0@ == e.version@
        &&& next.values[0].1 == e.data
        &&& forall|i: int|
            1 <= i < next.values.len() ==> clock_cmp(#[trigger] next.values[i].0@, e.version@) is None
        &&& forall|i: int|
            0 <= i < self.values.len() && clock_cmp(#[trigger] self.values[i].0@, e.version@) is None
                ==> exists|j: int| 1 <= j < next.values.len() && next.values[j].0@
                == self.values[i].0@ && next.values[j].1 == self.values[i].1
    }

    open spec fn answers(&self, r: Vec<V>) -> bool {
        &&& forall|i: int| 0 <= i < r.len() ==> written(self.values@, #[trigger] r[i])
        &&& forall|j: int|
            0 <= j < self.values.len() && #[trigger] self.values[j].1 is Some ==> r@.contains(
                self.values[j].1->Some_0,
            )
    }

    fn query(&self) -> Vec<V> {
        self.query_values()
    }

    fn prepare(&self, op: Option<V>) -> Option<V> {
        op
    }

    fn effect(&mut self, event: Event<Option<V>>) {
        self.apply(event.version, event.data);
    }

    fn duplicate(&self) -> Self {
        let mut values: Vec<(VTime, Option<V>)> = Vec::new();
        let mut i: usize = 0;
        while i < self.values.len()
            decreases self.values.len() - i,
        {
            values.push((self.values[i].0.duplicate(), self.values[i].1.duplicate_value()));
            i = i + 1;
        }
        MVRegister { values }
    }
}

} // verus!
