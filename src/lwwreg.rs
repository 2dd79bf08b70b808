//! Operation-based last-writer-wins register.
use std::cmp::Ordering;
use vstd::prelude::*;

use crate::clock::clock_cmp;
use crate::mvregister::DuplicateValue;
use crate::replica::{ReplicaId, Value};
use crate::replicator::{Crdt, Event, EventData, VTime};

verus! {

impl<V: Value> EventData for Option<V> {
    fn duplicate(&self) -> Self {
        match self {
            Some(v) => Some(v.duplicate()),
            None => None,
        }
    }
}

/// A register holding the write with the latest version; among concurrent writes,
/// this replica keeps a write whose origin is not above its own id.
#[derive(Clone, Debug, Default)]
pub struct LWWRegister<V> {
    pub id: ReplicaId,
    pub time: VTime,
    pub value: Option<V>,
}

/// Whether an incoming write at version `at` from `origin` replaces the register's
/// write at `time` on replica `id`.
pub open spec fn lww_replaces(id: u64, time: Map<u64, u64>, at: Map<u64, u64>, origin: u64) -> bool {
    match clock_cmp(time, at) {
        Some(Ordering::Less) => true,
        None => id >= origin,
        _ => false,
    }
}

impl<V: Value> LWWRegister<V> {
    pub fn new(id: ReplicaId) -> (r: Self)
        ensures
            r.id == id,
            r.time@ == Map::<u64, u64>::empty(),
            r.value is None,
    {
        LWWRegister { id, time: VTime::new(), value: None }
    }

    /// Applies a write of `value` at version `at` from `origin`. A write that is not
    /// after the current one, nor concurrent with it, cannot arrive under causal
    /// delivery and is ignored.
    pub fn apply(&mut self, origin: ReplicaId, at: VTime, value: Option<V>)
        ensures
            final(self).id == old(self).id,
            lww_replaces(old(self).id.0, old(self).time@, at@, origin.0) ==> final(self).time@ == at@
                && final(self).value == value,
            !lww_replaces(old(self).id.0, old(self).time@, at@, origin.0) ==> final(self).time@
                == old(self).time@ && final(self).value == old(self).value,
    {
        match VTime::partial_ord_impl(&self.time, &at) {
            Some(Ordering::Less) => {
                self.time = at;
                self.value = value;
            },
            None => {
                if self.id.0 >= origin.0 {
                    self.time = at;
                    self.value = value;
                }
            },
            _ => {},
        }
    }
}

impl<V: Value> Crdt for LWWRegister<V> {
    type State = Option<V>;

    type EData = Option<V>;

    type Cmd = Option<V>;

    open spec fn ready(&self, op: &Option<V>) -> bool {
        true
    }

    open spec fn prepares(&self, op: Option<V>, r: Option<V>) -> bool {
        r == op
    }

    open spec fn applies(&self, e: Event<Option<V>>, next: Self) -> bool {
        &&& next.id == self.id
        &&& lww_replaces(self.id.0, self.time@, e.version@, e.origin.0) ==> next.time@ == e.version@
            && next.value == e.data
        &&& !lww_replaces(self.id.0, self.time@, e.version@, e.origin.0) ==> next.time@ == self.time@
            && next.value == self.value
    }

    open spec fn answers(&self, r: Option<V>) -> bool {
        r == self.value
    }

    fn query(&self) -> Option<V> {
        self.value.duplicate_value()
    }

    fn prepare(&self, op: Option<V>) -> Option<V> {
        op
    }

    fn effect(&mut self, event: Event<Option<V>>) {
        self.apply(event.origin, event.version, event.data);
    }

    fn duplicate(&self) -> Self {
        LWWRegister { id: self.id, time: self.time.duplicate(), value: self.value.duplicate_value() }
    }
}

} // verus!
