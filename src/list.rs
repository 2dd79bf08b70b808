//! A state-based list over a dot context, best used as a stack: pushes and pops at
//! the end merge cleanly.
use vstd::prelude::*;

use crate::clock::count_of;
use crate::dot::{Dot, DotCtx};
use crate::replica::{ReplicaId, Value};

verus! {

/// The element a merge keeps at a place both lists have: the first list's when the
/// dots are equal or the first list observed the second's dot, else the second's.
pub open spec fn merged_at<V>(a: List<V>, b: List<V>, i: int) -> (Dot, V) {
    if a.values@[i].0 == b.values@[i].0 || a.ctx.has(b.values@[i].0.key()) {
        a.values@[i]
    } else {
        b.values@[i]
    }
}

/// Elements whose dot `ctx` has not observed.
pub open spec fn unseen_by<V>(ctx: DotCtx) -> spec_fn((Dot, V)) -> bool {
    |e: (Dot, V)| !ctx.has(e.0.key())
}

/// The places of `s` from `k` on.
pub open spec fn tail<A>(s: Seq<A>, k: int) -> Seq<A> {
    if k < s.len() {
        s.subrange(k, s.len() as int)
    } else {
        Seq::empty()
    }
}

/// The values of the merge of `a` and `b`: the elements kept at the places both
/// have, then the elements after the next place of the longer list that the shorter
/// one did not observe (the first list counts as shorter on equal lengths).
pub open spec fn merged_values<V>(a: List<V>, b: List<V>) -> Seq<(Dot, V)> {
    let m = if a.values.len() <= b.values.len() { a.values.len() as int } else { b.values.len() as int };
    Seq::new(m as nat, |i: int| merged_at(a, b, i)) + if a.values.len() <= b.values.len() {
        tail(b.values@, m + 1).filter(unseen_by(a.ctx))
    } else {
        tail(a.values@, m + 1).filter(unseen_by(b.ctx))
    }
}

/// A list of dotted values, with the dot of its last change past the end.
pub struct List<V> {
    pub ctx: DotCtx,
    pub values: Vec<(Dot, V)>,
    pub tombstone: (Dot, usize),
}

impl<V: Value> List<V> {
    /// An empty list whose context holds the starting dot.
    pub fn new() -> (r: Self)
        ensures
            r.values.len() == 0,
            r.ctx.clock@ == Map::<u64, u64>::empty(),
            r.tombstone == (Dot(ReplicaId(0), 0), 0usize),
    {
        let mut ctx = DotCtx::new();
        let starting_dot = Dot(ReplicaId(0), 0);
        ctx.add(starting_dot);
        List { ctx, values: Vec::new(), tombstone: (starting_dot, 0) }
    }

    /// The values, in order.
    pub fn values_iter(&self) -> (r: Vec<V>)
        ensures
            r.len() == self.values.len(),
            forall|i: int| 0 <= i < r.len() ==> #[trigger] r[i] == self.values[i].1,
    {
        let mut r: Vec<V> = Vec::new();
        let mut i: usize = 0;
        while i < self.values.len()
            invariant
                0 <= i <= self.values.len(),
                r.len() == i,
                forall|k: int| 0 <= k < i ==> #[trigger] r[k] == self.values[k].1,
            decreases self.values.len() - i,
        {
            r.push(self.values[i].1.duplicate());
            i = i + 1;
        }
        r
    }

    /// Replaces the value at `index` under a fresh dot of `replica`.
    pub fn update(&mut self, replica: ReplicaId, value: V, index: usize)
        requires
            index < old(self).values.len(),
            count_of(old(self).ctx.clock@, replica.0) < u64::MAX,
        ensures
            final(self).values@ == old(self).values@.update(
                index as int,
                (Dot(replica, (count_of(old(self).ctx.clock@, replica.0) + 1) as u64), value),
            ),
            final(self).ctx.dots() == old(self).ctx.dots().insert(
                (replica.0, (count_of(old(self).ctx.clock@, replica.0) + 1) as u64),
            ),
    {
        let dot = self.ctx.next_dot(replica);
        self.values.set(index, (dot, value));
    }

    /// Appends `value` under a fresh dot of `replica`.
    pub fn push(&mut self, replica: ReplicaId, value: V)
        requires
            count_of(old(self).ctx.clock@, replica.0) < u64::MAX,
        ensures
            final(self).values@ == old(self).values@.push(
                (Dot(replica, (count_of(old(self).ctx.clock@, replica.0) + 1) as u64), value),
            ),
            final(self).tombstone == (
                Dot(replica, (count_of(old(self).ctx.clock@, replica.0) + 1) as u64),
                final(self).values.len(),
            ),
            final(self).ctx.clock@ == old(self).ctx.clock@.insert(
                replica.0,
                (count_of(old(self).ctx.clock@, replica.0) + 1) as u64,
            ),
    {
        let dot = self.ctx.next_dot(replica);
        self.values.push((dot, value));
        self.tombstone = (dot, self.values.len());
    }

    /// Inserts `value` at `index` under a fresh dot of `replica`; every later element
    /// takes that dot too.
    pub fn insert(&mut self, replica: ReplicaId, value: V, index: usize)
        requires
            index <= old(self).values.len(),
            count_of(old(self).ctx.clock@, replica.0) < u64::MAX,
        ensures
            final(self).values.len() == old(self).values.len() + 1,
            final(self).values[index as int] == (
                Dot(replica, (count_of(old(self).ctx.clock@, replica.0) + 1) as u64),
                value,
            ),
            forall|i: int| 0 <= i < index ==> #[trigger] final(self).values[i] == old(self).values[i],
            forall|i: int|
                index < i < final(self).values.len() ==> #[trigger] final(self).values[i] == (
                    Dot(replica, (count_of(old(self).ctx.clock@, replica.0) + 1) as u64),
                    old(self).values[i - 1].1,
                ),
    {
        let dot = self.ctx.next_dot(replica);
        self.values.insert(index, (dot, value));
        let ghost inserted = self.values@;
        assert(index < self.values.len());
        let mut i = index + 1;
        while i < self.values.len()
            invariant
                index < i <= self.values.len(),
                self.values.len() == inserted.len(),
                forall|k: int| 0 <= k <= index ==> #[trigger] self.values[k] == inserted[k],
                forall|k: int| index < k < i ==> #[trigger] self.values[k].0 == dot,
                forall|k: int| i <= k < self.values.len() ==> #[trigger] self.values[k] == inserted[k],
                forall|k: int| index < k < self.values.len() ==> #[trigger] self.values[k].1 == inserted[k].1,
            decreases self.values.len() - i,
        {
            let v = self.values[i].1.duplicate();
            self.values.set(i, (dot, v));
            i = i + 1;
        }
        self.tombstone = (dot, self.values.len());
    }

    /// Removes and returns the last value; the removal takes a fresh dot of `replica`.
    pub fn pop(&mut self, replica: ReplicaId) -> (r: Option<V>)
        requires
            count_of(old(self).ctx.clock@, replica.0) < u64::MAX,
        ensures
            old(self).values.len() == 0 ==> r is None && final(self).values@ == old(self).values@,
            old(self).values.len() > 0 ==> r == Some(old(self).values@.last().1) && final(self).values@
                == old(self).values@.drop_last(),
    {
        let dot = self.ctx.next_dot(replica);
        match self.values.pop() {
            Some(val) => {
                self.tombstone = (dot, self.values.len());
                Some(val.1)
            },
            None => None,
        }
    }

    /// Walks both lists together; at each place keeps the common element, or the one
    /// of a side whose context saw the other's dot; past the end of one side, keeps
    /// the rest of the other side that the first did not observe.
    pub fn merge(&self, other: &Self) -> (r: Self)
        ensures
            r.ctx.dots() == self.ctx.dots().union(other.ctx.dots()),
            r.values@ == merged_values(*self, *other),
            r.tombstone == if self.values.len() <= other.values.len() {
                self.tombstone
            } else {
                other.tombstone
            },
    {
        let mut values: Vec<(Dot, V)> = Vec::new();
        let mut k: usize = 0;
        while k < self.values.len() && k < other.values.len()
            invariant
                k <= self.values.len(),
                k <= other.values.len(),
                values@ == Seq::new(k as nat, |i: int| merged_at(*self, *other, i)),
            decreases self.values.len() - k,
        {
            let self_dot = self.values[k].0;
            let other_dot = other.values[k].0;
            let ghost before = values@;
            if (self_dot.0.0 == other_dot.0.0 && self_dot.1 == other_dot.1) || self.ctx.contains(other_dot) {
                values.push((self_dot, self.values[k].1.duplicate()));
            } else {
                values.push((other_dot, other.values[k].1.duplicate()));
            }
            assert(values@ =~= Seq::new((k + 1) as nat, |i: int| merged_at(*self, *other, i)));
            k = k + 1;
        }
        let ghost prefix = values@;
        let tombstone;
        if k == self.values.len() {
            let start: usize = if k < other.values.len() { k + 1 } else { other.values.len() };
            let mut j = start;
            while j < other.values.len()
                invariant
                    start <= j <= other.values.len(),
                    values@ == prefix + other.values@.subrange(start as int, j as int).filter(unseen_by(self.ctx)),
                decreases other.values.len() - j,
            {
                proof {
                    let t = other.values@.subrange(start as int, j as int);
                    assert(other.values@.subrange(start as int, j + 1) =~= t.push(other.values@[j as int]));
                    t.lemma_filter_push(other.values@[j as int], unseen_by(self.ctx));
                }
                let ghost before = values@;
                if !self.ctx.contains(other.values[j].0) {
                    values.push((other.values[j].0, other.values[j].1.duplicate()));
                }
                assert(values@ =~= prefix + other.values@.subrange(start as int, j + 1).filter(unseen_by(self.ctx)));
                j = j + 1;
            }
            tombstone = self.tombstone;
        } else {
            let start: usize = if k < self.values.len() { k + 1 } else { self.values.len() };
            let mut j = start;
            while j < self.values.len()
                invariant
                    start <= j <= self.values.len(),
                    values@ == prefix + self.values@.subrange(start as int, j as int).filter(unseen_by(other.ctx)),
                decreases self.values.len() - j,
            {
                proof {
                    let t = self.values@.subrange(start as int, j as int);
                    assert(self.values@.subrange(start as int, j + 1) =~= t.push(self.values@[j as int]));
                    t.lemma_filter_push(self.values@[j as int], unseen_by(other.ctx));
                }
                if !other.ctx.contains(self.values[j].0) {
                    values.push((self.values[j].0, self.values[j].1.duplicate()));
                }
                assert(values@ =~= prefix + self.values@.subrange(start as int, j + 1).filter(unseen_by(other.ctx)));
                j = j + 1;
            }
            tombstone = other.tombstone;
        }
        List { ctx: self.ctx.merge(&other.ctx), values, tombstone }
    }

    pub fn duplicate(&self) -> (r: Self)
        ensures
            r.values.len() == self.values.len(),
            forall|i: int| 0 <= i < r.values.len() ==> #[trigger] r.values[i] == self.values[i],
            r.ctx.dots() == self.ctx.dots(),
            r.ctx.clock@ == self.ctx.clock@,
            r.tombstone == self.tombstone,
    {
        let mut values: Vec<(Dot, V)> = Vec::new();
        let mut i: usize = 0;
        while i < self.values.len()
            invariant
                0 <= i <= self.values.len(),
                values.len() == i,
                forall|k: int| 0 <= k < i ==> #[trigger] values[k] == self.values[k],
            decreases self.values.len() - i,
        {
            values.push((self.values[i].0, self.values[i].1.duplicate()));
            i = i + 1;
        }
        let ctx = DotCtx { clock: self.ctx.clock.duplicate(), dot_cloud: self.ctx.dot_cloud.clone() };
        List { ctx, values, tombstone: self.tombstone }
    }
}

impl<V: Value> Default for List<V> {
    fn default() -> (r: Self)
        ensures
            r.values.len() == 0,
    {
        List::new()
    }
}

} // verus!
