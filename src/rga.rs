//! Operation-based replicated growable array: each element remembers the element it
//! was inserted after; removed elements stay as tombstones.
use vstd::prelude::*;

use crate::replica::{ReplicaId, Value};
use crate::replicator::{Crdt, Event, EventData};

verus! {

/// A position: sequence number, then replica; ordered by both in turn.
#[derive(Clone, Copy, Debug, PartialEq, PartialOrd)]
pub struct VPtr(pub u64, pub ReplicaId);

/// Strict order of positions: by sequence number, then by replica id.
pub open spec fn vptr_lt(a: VPtr, b: VPtr) -> bool {
    a.0 < b.0 || (a.0 == b.0 && a.1.0 < b.1.0)
}

/// The next sequence number of the same replica (saturating).
pub open spec fn incr_spec(p: VPtr) -> VPtr {
    VPtr(if p.0 < u64::MAX { (p.0 + 1) as u64 } else { p.0 }, p.1)
}

/// Whether `idx` is where the `i`-th live element (from zero) stands, counting the
/// head and tombstones: the first position after which `i` live elements precede it.
pub open spec fn live_pos<V>(values: Seq<Vertex<V>>, i: int, idx: int) -> bool {
    &&& 1 <= idx <= values.len()
    &&& live_count(values, 1, idx) == i
    &&& forall|k: int| 1 <= k < idx ==> #[trigger] live_count(values, 1, k) < i
}

impl VPtr {
    /// The next sequence number of the same replica (saturating).
    pub fn incr(self) -> (r: Self)
        ensures
            r == incr_spec(self),
    {
        VPtr(if self.0 < u64::MAX { self.0 + 1 } else { self.0 }, self.1)
    }

    pub fn less(&self, other: &Self) -> (r: bool)
        ensures
            r == vptr_lt(*self, *other),
    {
        self.0 < other.0 || (self.0 == other.0 && self.1.0 < other.1.0)
    }
}

/// An element, or a tombstone (`None`) where it was removed.
pub struct Vertex<V>(pub VPtr, pub Option<V>);

impl<V> Vertex<V> {
    pub fn is_tombstone(&self) -> (r: bool)
        ensures
            r == self.1.is_none(),
    {
        self.1.is_none()
    }
}

pub enum Command<V> {
    Insert(u32, V),
    RemoveAt(u32),
}

pub enum Operation<V> {
    Inserted { predecessor: VPtr, ptr: VPtr, val: V },
    Removed { pos: VPtr },
}

impl<V: Value> EventData for Operation<V> {
    fn duplicate(&self) -> Self {
        match self {
            Operation::Inserted { predecessor, ptr, val } => Operation::Inserted {
                predecessor: *predecessor,
                ptr: *ptr,
                val: val.duplicate(),
            },
            Operation::Removed { pos } => Operation::Removed { pos: *pos },
        }
    }
}

/// Number of live elements among `values[from..to]`.
pub open spec fn live_count<V>(values: Seq<Vertex<V>>, from: int, to: int) -> nat
    decreases to - from,
{
    if to <= from {
        0
    } else {
        live_count(values, from, to - 1) + if values[to - 1].1 is Some { 1nat } else { 0nat }
    }
}

/// The values of the live vertices, in order.
pub open spec fn live_values<V>(values: Seq<Vertex<V>>) -> Seq<V>
    decreases values.len(),
{
    if values.len() == 0 {
        Seq::empty()
    } else {
        let rest = live_values(values.drop_last());
        match values.last().1 {
            Some(v) => rest.push(v),
            None => rest,
        }
    }
}

/// Whether `new` is `old` with `ptr` holding `val` inserted after `predecessor`,
/// past the later concurrent inserts; or `old` itself when `predecessor` is not there.
pub open spec fn rga_inserted<V>(old: Seq<Vertex<V>>, predecessor: VPtr, ptr: VPtr, val: V, new: Seq<Vertex<V>>) -> bool {
    &&& (forall|j: int| 0 <= j < old.len() ==> #[trigger] old[j].0 != predecessor) ==> new == old
    &&& (exists|j: int| 0 <= j < old.len() && #[trigger] old[j].0 == predecessor) ==> exists|p: int, idx: int|
        #![trigger old[p], new[idx]]
        0 <= p < idx <= old.len() && old[p].0 == predecessor && (forall|j: int|
            p < j < idx ==> !vptr_lt(#[trigger] old[j].0, ptr)) && (idx < old.len() ==> vptr_lt(old[idx].0, ptr))
            && new == old.insert(idx, Vertex(ptr, Some(val)))
}

/// Whether `new` is `old` with the first vertex at `pos` made a tombstone, every
/// position and every other vertex kept.
pub open spec fn rga_removed<V>(old: Seq<Vertex<V>>, pos: VPtr, new: Seq<Vertex<V>>) -> bool {
    &&& new.len() == old.len()
    &&& forall|j: int| 0 <= j < old.len() ==> #[trigger] new[j].0 == old[j].0
    &&& forall|j: int| 0 <= j < old.len() && old[j].0 != pos ==> #[trigger] new[j].1 == old[j].1
    &&& forall|j: int|
        0 <= j < old.len() && old[j].0 == pos && (forall|k: int| 0 <= k < j ==> #[trigger] old[k].0 != pos)
            ==> #[trigger] new[j].1 is None
}

/// Replicated growable array. The first vertex is a fixed head that every first
/// element follows.
pub struct Rga<V> {
    pub values: Vec<Vertex<V>>,
    pub sequencer: VPtr,
}

impl<V: Value> Rga<V> {
    pub open spec fn wf(&self) -> bool {
        self.values.len() >= 1
    }

    pub fn new(replica_id: ReplicaId) -> (r: Self)
        ensures
            r.wf(),
            r.values.len() == 1,
            r.values[0].0 == VPtr(0, ReplicaId(u64::MAX)),
            r.values[0].1 is None,
            r.sequencer == VPtr(0, replica_id),
    {
        let mut values: Vec<Vertex<V>> = Vec::new();
        values.push(Vertex(VPtr(0, ReplicaId(u64::MAX)), None));
        Rga { values, sequencer: VPtr(0, replica_id) }
    }

    /// From `offset`, skips the vertices whose position is not below `ptr`: later
    /// concurrent inserts after the same predecessor go first.
    pub fn shift(&self, offset: usize, ptr: VPtr) -> (r: usize)
        ensures
            r >= offset,
            offset <= self.values.len() ==> r <= self.values.len(),
            forall|j: int| offset <= j < r ==> !vptr_lt(#[trigger] self.values[j].0, ptr),
            r < self.values.len() ==> vptr_lt(self.values[r as int].0, ptr),
    {
        let mut i = offset;
        while i < self.values.len() && !self.values[i].0.less(&ptr)
            invariant
                offset <= i,
                offset <= self.values.len() ==> i <= self.values.len(),
                forall|j: int| offset <= j < i ==> !vptr_lt(#[trigger] self.values[j].0, ptr),
            decreases self.values.len() - i,
        {
            i = i + 1;
        }
        i
    }

    /// The index of the vertex at `ptr`, if there is one.
    pub fn index_of_vptr(&self, ptr: VPtr) -> (r: Option<usize>)
        ensures
            r matches Some(i) ==> i < self.values.len() && self.values[i as int].0 == ptr && forall|j: int|
                0 <= j < i ==> #[trigger] self.values[j].0 != ptr,
            r is None ==> forall|j: int| 0 <= j < self.values.len() ==> #[trigger] self.values[j].0 != ptr,
    {
        let mut i: usize = 0;
        while i < self.values.len()
            invariant
                0 <= i <= self.values.len(),
                forall|j: int| 0 <= j < i ==> #[trigger] self.values[j].0 != ptr,
            decreases self.values.len() - i,
        {
            let p = self.values[i].0;
            if p.0 == ptr.0 && p.1.0 == ptr.1.0 {
                return Some(i);
            }
            i = i + 1;
        }
        None
    }

    /// Inserts `value` at `ptr` after its predecessor, past the later concurrent
    /// inserts, and advances the sequencer past `ptr`. An insert whose predecessor
    /// is not here cannot arrive under causal delivery and is ignored.
    pub fn apply_inserted(&mut self, predecessor: VPtr, ptr: VPtr, value: V)
        requires
            old(self).wf(),
        ensures
            final(self).wf(),
            rga_inserted(old(self).values@, predecessor, ptr, value, final(self).values@),
    {
        match self.index_of_vptr(predecessor) {
            Some(pidx) => {
                let insert_idx = self.shift(pidx + 1, ptr);
                let next = self.sequencer.incr();
                let seq = if next.0 >= ptr.0 { next.0 } else { ptr.0 };
                let ghost before = self.values@;
                self.values.insert(insert_idx, Vertex(ptr, Some(value)));
                self.sequencer = VPtr(seq, next.1);
                assert(self.values[insert_idx as int] == Vertex(ptr, Some(value)));
                assert(before[pidx as int].0 == predecessor);
                assert(self.values@ == before.insert(insert_idx as int, Vertex(ptr, Some(value))));
            },
            None => {},
        }
    }

    /// Marks the vertex at `pos` as a tombstone; nothing happens when it is not here.
    pub fn apply_removed(&mut self, pos: VPtr)
        requires
            old(self).wf(),
        ensures
            final(self).wf(),
            rga_removed(old(self).values@, pos, final(self).values@),
    {
        match self.index_of_vptr(pos) {
            Some(i) => {
                let p = self.values[i].0;
                self.values.set(i, Vertex(p, None));
            },
            None => {},
        }
    }

    /// The index, counting tombstones, at which the `i`-th live element (from zero)
    /// stands, or past the end by the live elements missing.
    pub fn index_including_tombstones(&self, i: u32) -> (r: usize)
        requires
            self.wf(),
            self.values.len() + i < usize::MAX,
        ensures
            r >= 1,
            r <= self.values.len() ==> live_count(self.values@, 1, r as int) == i,
            r <= self.values.len() ==> forall|k: int| 1 <= k < r ==> live_count(self.values@, 1, k) < i,
            r > self.values.len() ==> r == self.values.len() + (i - live_count(self.values@, 1, self.values.len() as int)),
    {
        let mut remaining = i;
        let mut offset: usize = 1;
        while offset < self.values.len()
            invariant
                1 <= offset <= self.values.len(),
                self.values.len() + i < usize::MAX,
                remaining + live_count(self.values@, 1, offset as int) == i,
                forall|k: int| 1 <= k < offset ==> live_count(self.values@, 1, k) < i,
            decreases self.values.len() - offset,
        {
            if remaining == 0 {
                return offset;
            }
            if !self.values[offset].is_tombstone() {
                remaining = remaining - 1;
            }
            offset = offset + 1;
        }
        if remaining == 0 {
            offset
        } else {
            offset + remaining as usize
        }
    }

    /// The elements, in order, without tombstones.
    pub fn query_values(&self) -> (r: Vec<V>)
        ensures
            r@ == live_values(self.values@),
    {
        let mut r: Vec<V> = Vec::new();
        let mut i: usize = 0;
        while i < self.values.len()
            invariant
                0 <= i <= self.values.len(),
                r@ == live_values(self.values@.take(i as int)),
            decreases self.values.len() - i,
        {
            assert(self.values@.take(i + 1).drop_last() =~= self.values@.take(i as int));
            match &self.values[i].1 {
                Some(v) => {
                    r.push(v.duplicate());
                },
                None => {},
            }
            i = i + 1;
        }
        assert(self.values@.take(self.values.len() as int) =~= self.values@);
        r
    }

    /// Whether the command's index is in range.
    pub open spec fn in_range(&self, op: &Command<V>) -> bool {
        &&& self.wf()
        &&& self.values.len() + u32::MAX < usize::MAX
        &&& match op {
            Command::Insert(i, _) => *i <= live_count(self.values@, 1, self.values.len() as int),
            Command::RemoveAt(i) => *i < live_count(self.values@, 1, self.values.len() as int),
        }
    }
}

impl<V: Value> Crdt for Rga<V> {
    type State = Vec<V>;

    type EData = Operation<V>;

    type Cmd = Command<V>;

    open spec fn ready(&self, op: &Command<V>) -> bool {
        self.in_range(op)
    }

    open spec fn prepares(&self, op: Command<V>, r: Operation<V>) -> bool {
        match op {
            Command::Insert(i, val) => exists|idx: int|
                #[trigger] live_pos(self.values@, i as int, idx) && r == Operation::Inserted {
                    predecessor: self.values[idx - 1].0,
                    ptr: incr_spec(self.sequencer),
                    val,
                },
            Command::RemoveAt(i) => exists|idx: int|
                #[trigger] live_pos(self.values@, i as int, idx) && idx < self.values.len() && r
                    == Operation::<V>::Removed { pos: self.values[idx].0 },
        }
    }

    open spec fn applies(&self, e: Event<Operation<V>>, next: Self) -> bool {
        if self.values.len() == 0 {
            next == *self
        } else {
            match e.data {
                Operation::Inserted { predecessor, ptr, val } => rga_inserted(
                    self.values@,
                    predecessor,
                    ptr,
                    val,
                    next.values@,
                ),
                Operation::Removed { pos } => rga_removed(self.values@, pos, next.values@),
            }
        }
    }

    open spec fn answers(&self, r: Vec<V>) -> bool {
        r@ == live_values(self.values@)
    }

    fn query(&self) -> Vec<V> {
        self.query_values()
    }

    fn prepare(&self, op: Command<V>) -> Operation<V> {
        match op {
            Command::Insert(i, val) => {
                let index = self.index_including_tombstones(i);
                let predecessor = self.values[index - 1].0;
                let at = self.sequencer.incr();
                assert(live_pos(self.values@, i as int, index as int));
                Operation::Inserted { predecessor, ptr: at, val }
            },
            Command::RemoveAt(i) => {
                let index = self.index_including_tombstones(i);
                let pos = self.values[index].0;
                assert(live_pos(self.values@, i as int, index as int));
                Operation::Removed { pos }
            },
        }
    }

    fn effect(&mut self, event: Event<Operation<V>>) {
        if self.values.len() == 0 {
            return;
        }
        match event.data {
            Operation::Inserted { predecessor, ptr, val } => self.apply_inserted(predecessor, ptr, val),
            Operation::Removed { pos } => self.apply_removed(pos),
        }
    }

    fn duplicate(&self) -> Self {
        let mut values: Vec<Vertex<V>> = Vec::new();
        let mut i: usize = 0;
        while i < self.values.len()
            decreases self.values.len() - i,
        {
            let v = match &self.values[i].1 {
                Some(x) => Some(x.duplicate()),
                None => None,
            };
            values.push(Vertex(self.values[i].0, v));
            i = i + 1;
        }
        Rga { values, sequencer: self.sequencer }
    }
}

} // verus!
