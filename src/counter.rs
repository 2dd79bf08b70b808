//! Operation-based counter.
use vstd::prelude::*;

use crate::replicator::{Crdt, Event, EventData};

verus! {

impl EventData for i64 {
    fn duplicate(&self) -> Self {
        *self
    }
}

/// Saturating sum of two counters.
pub open spec fn sat_add(a: i64, b: i64) -> i64 {
    if a + b > i64::MAX {
        i64::MAX
    } else if a + b < i64::MIN {
        i64::MIN
    } else {
        (a + b) as i64
    }
}

/// A counter whose events carry the amount to add.
#[derive(Clone, Debug, Default)]
pub struct Counter {
    pub val: i64,
}

impl Counter {
    pub fn new() -> (r: Self)
        ensures
            r.val == 0,
    {
        Counter { val: 0 }
    }

    /// Adds `amount`, saturating.
    pub fn apply(&mut self, amount: i64)
        ensures
            final(self).val == sat_add(old(self).val, amount),
    {
        if amount > 0 && self.val > i64::MAX - amount {
            self.val = i64::MAX;
        } else if amount < 0 && self.val < i64::MIN - amount {
            self.val = i64::MIN;
        } else {
            self.val = self.val + amount;
        }
    }
}

impl Crdt for Counter {
    type State = i64;

    type EData = i64;

    type Cmd = i64;

    open spec fn ready(&self, op: &i64) -> bool {
        true
    }

    open spec fn prepares(&self, op: i64, r: i64) -> bool {
        r == op
    }

    open spec fn applies(&self, e: Event<i64>, next: Self) -> bool {
        next.val == sat_add(self.val, e.data)
    }

    open spec fn answers(&self, r: i64) -> bool {
        r == self.val
    }

    fn query(&self) -> i64 {
        self.val
    }

    fn prepare(&self, op: i64) -> i64 {
        op
    }

    fn effect(&mut self, event: Event<i64>) {
        self.apply(event.data);
    }

    fn duplicate(&self) -> Self {
        Counter { val: self.val }
    }
}

} // verus!
