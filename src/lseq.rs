//! Operation-based sequence with dense position identifiers (LSeq).
use std::cmp::Ordering;
use vstd::prelude::*;

use crate::replica::{ReplicaId, Value};
use crate::replicator::{Crdt, Event, EventData};

verus! {

/// Lexicographic order of byte sequences; a proper prefix comes first.
pub open spec fn bytes_cmp(a: Seq<u8>, b: Seq<u8>) -> Ordering
    decreases a.len(),
{
    if a.len() == 0 {
        if b.len() == 0 {
            Ordering::Equal
        } else {
            Ordering::Less
        }
    } else if b.len() == 0 {
        Ordering::Greater
    } else if a[0] < b[0] {
        Ordering::Less
    } else if a[0] > b[0] {
        Ordering::Greater
    } else {
        bytes_cmp(a.drop_first(), b.drop_first())
    }
}

/// The byte of `s` at `i`, or `dflt` past its end.
pub open spec fn byte_at(s: Seq<u8>, i: int, dflt: u8) -> u8 {
    if 0 <= i < s.len() {
        s[i]
    } else {
        dflt
    }
}

/// Whether position `i` leaves room for a byte strictly between `lo` and `hi`.
pub open spec fn room_at(lo: Seq<u8>, hi: Seq<u8>, i: int) -> bool {
    byte_at(lo, i, 0) + 1 < byte_at(hi, i, 255)
}

/// The sequence generated between `lo` and `hi`: the bytes of `lo` up to the first
/// position with room, then one more than `lo`'s byte there.
pub open spec fn between(lo: Seq<u8>, hi: Seq<u8>, k: int) -> Seq<u8> {
    Seq::new(k as nat, |j: int| byte_at(lo, j, 0)).push((byte_at(lo, k, 0) + 1) as u8)
}

/// Whether `s` is the sequence generated between `lo` and `hi`.
pub open spec fn generated(lo: Seq<u8>, hi: Seq<u8>, s: Seq<u8>) -> bool {
    exists|k: int|
        0 <= k && (forall|j: int| 0 <= j < k ==> !#[trigger] room_at(lo, hi, j)) && room_at(lo, hi, k) && s
            == #[trigger] between(lo, hi, k)
}

/// A position identifier: a byte sequence, and the replica that made it.
#[derive(Clone, Debug, PartialEq)]
pub struct VPtr {
    pub sequence: Vec<u8>,
    pub id: ReplicaId,
}

/// Order of position identifiers: by sequence, then by replica id.
pub open spec fn vptr_cmp(a: VPtr, b: VPtr) -> Ordering {
    match bytes_cmp(a.sequence@, b.sequence@) {
        Ordering::Equal => if a.id.0 < b.id.0 {
            Ordering::Less
        } else if a.id.0 > b.id.0 {
            Ordering::Greater
        } else {
            Ordering::Equal
        },
        o => o,
    }
}

impl VPtr {
    pub fn duplicate(&self) -> (r: Self)
        ensures
            r.sequence@ == self.sequence@,
            r.id == self.id,
    {
        let mut sequence: Vec<u8> = Vec::new();
        let mut i: usize = 0;
        while i < self.sequence.len()
            invariant
                0 <= i <= self.sequence.len(),
                sequence@ == self.sequence@.subrange(0, i as int),
            decreases self.sequence.len() - i,
        {
            sequence.push(self.sequence[i]);
            assert(sequence@ =~= self.sequence@.subrange(0, i + 1));
            i = i + 1;
        }
        assert(self.sequence@.subrange(0, self.sequence.len() as int) =~= self.sequence@);
        VPtr { sequence, id: self.id }
    }

    pub fn compare(a: &Self, b: &Self) -> (r: Ordering)
        ensures
            r == vptr_cmp(*a, *b),
    {
        let mut i: usize = 0;
        assert(a.sequence@.skip(0) =~= a.sequence@);
        assert(b.sequence@.skip(0) =~= b.sequence@);
        while i < a.sequence.len() && i < b.sequence.len()
            invariant
                0 <= i <= a.sequence.len(),
                i <= b.sequence.len(),
                bytes_cmp(a.sequence@, b.sequence@) == bytes_cmp(a.sequence@.skip(i as int), b.sequence@.skip(i as int)),
            decreases a.sequence.len() - i,
        {
            let x = a.sequence[i];
            let y = b.sequence[i];
            assert(a.sequence@.skip(i as int)[0] == x);
            assert(b.sequence@.skip(i as int)[0] == y);
            assert(a.sequence@.skip(i as int).drop_first() =~= a.sequence@.skip(i + 1));
            assert(b.sequence@.skip(i as int).drop_first() =~= b.sequence@.skip(i + 1));
            if x < y {
                return Ordering::Less;
            }
            if x > y {
                return Ordering::Greater;
            }
            i = i + 1;
        }
        assert(a.sequence@.skip(i as int).len() == a.sequence.len() - i);
        if a.sequence.len() < b.sequence.len() {
            Ordering::Less
        } else if a.sequence.len() > b.sequence.len() {
            Ordering::Greater
        } else if a.id.0 < b.id.0 {
            Ordering::Less
        } else if a.id.0 > b.id.0 {
            Ordering::Greater
        } else {
            Ordering::Equal
        }
    }

    /// Appends to `acc` a sequence between `lo` and `hi`: the bytes of `lo` up to the
    /// first position where a byte fits strictly between the two, then that byte.
    pub fn generate_seq(acc: &mut Vec<u8>, lo: &[u8], hi: &[u8])
        ensures
            final(acc)@.len() > old(acc)@.len(),
            final(acc)@.subrange(0, old(acc)@.len() as int) == old(acc)@,
            generated(lo@, hi@, final(acc)@.skip(old(acc)@.len() as int)),
    {
        let ghost start = acc@;
        let mut i: usize = 0;
        let bound: usize = if lo.len() > hi.len() { lo.len() } else { hi.len() };
        loop
            invariant
                i <= bound,
                bound == (if lo.len() > hi.len() { lo.len() } else { hi.len() }),
                forall|j: int| 0 <= j < i ==> !#[trigger] room_at(lo@, hi@, j),
                acc@ == start + Seq::new(i as nat, |j: int| byte_at(lo@, j, 0)),
                start == old(acc)@,
            decreases bound - i,
        {
            let min: u8 = if i < lo.len() { lo[i] } else { 0 };
            let max: u8 = if i < hi.len() { hi[i] } else { 255 };
            if (min as u16) + 1 < (max as u16) {
                acc.push(min + 1);
                assert(acc@ =~= start + between(lo@, hi@, i as int));
                assert(acc@.skip(start.len() as int) =~= between(lo@, hi@, i as int));
                assert(acc@.subrange(0, start.len() as int) =~= start);
                return;
            }
            acc.push(min);
            assert(acc@ =~= start + Seq::new((i + 1) as nat, |j: int| byte_at(lo@, j, 0)));
            i = i + 1;
        }
    }
}

pub struct Vertex<V>(pub VPtr, pub V);

pub enum Command<V> {
    Insert(u32, V),
    RemoveAt(u32),
}

pub enum Operation<V> {
    Inserted(VPtr, V),
    Removed(VPtr),
}

impl<V: Value> EventData for Operation<V> {
    fn duplicate(&self) -> Self {
        match self {
            Operation::Inserted(p, v) => Operation::Inserted(p.duplicate(), v.duplicate()),
            Operation::Removed(p) => Operation::Removed(p.duplicate()),
        }
    }
}

/// Whether `new` is `old` with `Vertex(ptr, value)` inserted before the first
/// element whose position is not below `ptr`.
pub open spec fn seq_inserted<V>(old: Seq<Vertex<V>>, ptr: VPtr, value: V, new: Seq<Vertex<V>>) -> bool {
    exists|idx: int|
        0 <= idx <= old.len() && (forall|j: int| 0 <= j < idx ==> vptr_cmp(#[trigger] old[j].0, ptr) == Ordering::Less)
            && (idx < old.len() ==> vptr_cmp(old[idx].0, ptr) != Ordering::Less) && new == #[trigger] old.insert(
            idx,
            Vertex(ptr, value),
        )
}

/// Whether `new` is `old` without the first element at `ptr`, or `old` itself when
/// no element is there.
pub open spec fn seq_removed<V>(old: Seq<Vertex<V>>, ptr: VPtr, new: Seq<Vertex<V>>) -> bool {
    &&& (forall|j: int| 0 <= j < old.len() ==> vptr_cmp(#[trigger] old[j].0, ptr) != Ordering::Equal) ==> new == old
    &&& (exists|j: int| 0 <= j < old.len() && vptr_cmp(#[trigger] old[j].0, ptr) == Ordering::Equal) ==> exists|idx: int|
        0 <= idx < old.len() && vptr_cmp(old[idx].0, ptr) == Ordering::Equal && (forall|j: int|
            0 <= j < idx ==> vptr_cmp(#[trigger] old[j].0, ptr) != Ordering::Equal) && new == #[trigger] old.remove(idx)
}

/// A sequence whose elements are kept in the order of their position identifiers.
pub struct LSeq<V> {
    pub values: Vec<Vertex<V>>,
    pub id: ReplicaId,
}

impl<V: Value> LSeq<V> {
    pub fn new(id: ReplicaId) -> (r: Self)
        ensures
            r.values.len() == 0,
            r.id == id,
    {
        LSeq { values: Vec::new(), id }
    }

    /// The elements, in order.
    pub fn query_values(&self) -> (r: Vec<V>)
        ensures
            r.len() == self.values.len(),
            forall|i: int| 0 <= i < r.len() ==> #[trigger] r[i] == self.values[i].1,
    {
        let mut r: Vec<V> = Vec::new();
        let mut i: usize = 0;
        while i < self.values.len()
            invariant
                0 <= i <= self.values.len(),
                r.len() == i,
                forall|k: int| 0 <= k < i ==> #[trigger] r[k] == self.values[k].1,
            decreases self.values.len() - i,
        {
            r.push(self.values[i].1.duplicate());
            i = i + 1;
        }
        r
    }

    /// An insert of `value` at index `i`: a fresh position between the elements at
    /// `i - 1` and `i` (or the ends).
    pub fn prepare_insert(&self, i: u32, value: V) -> (r: Operation<V>)
        requires
            i <= self.values.len(),
        ensures
            r matches Operation::Inserted(p, v) && v == value && p.id == self.id && generated(
                if i == 0 { Seq::<u8>::empty() } else { self.values[i - 1].0.sequence@ },
                if i == self.values.len() { Seq::<u8>::empty() } else { self.values[i as int].0.sequence@ },
                p.sequence@,
            ),
    {
        let empty: Vec<u8> = Vec::new();
        let lo: &[u8] = if i == 0 { empty.as_slice() } else { self.values[(i - 1) as usize].0.sequence.as_slice() };
        let hi: &[u8] = if i as usize == self.values.len() { empty.as_slice() } else { self.values[i as usize].0.sequence.as_slice() };
        let mut sequence: Vec<u8> = Vec::new();
        VPtr::generate_seq(&mut sequence, lo, hi);
        assert(sequence@.skip(0) =~= sequence@);
        Operation::Inserted(VPtr { sequence, id: self.id }, value)
    }

    /// A removal of the element at index `i`.
    pub fn prepare_remove(&self, i: u32) -> (r: Operation<V>)
        requires
            i < self.values.len(),
        ensures
            r matches Operation::Removed(p) && p.sequence@ == self.values[i as int].0.sequence@ && p.id
                == self.values[i as int].0.id,
    {
        Operation::Removed(self.values[i as usize].0.duplicate())
    }

    /// Inserts before the first element whose position is not below `ptr`.
    pub fn apply_inserted(&mut self, ptr: VPtr, value: V)
        ensures
            seq_inserted(old(self).values@, ptr, value, final(self).values@),
            final(self).id == old(self).id,
    {
        let mut idx: usize = 0;
        let mut found = false;
        while idx < self.values.len() && !found
            invariant
                0 <= idx <= self.values.len(),
                self.values == old(self).values,
                self.id == old(self).id,
                forall|j: int| 0 <= j < idx ==> vptr_cmp(#[trigger] self.values[j].0, ptr) == Ordering::Less,
                found ==> idx < self.values.len() && vptr_cmp(self.values[idx as int].0, ptr) != Ordering::Less,
            decreases self.values.len() - idx + (if found { 0int } else { 1int }),
        {
            match VPtr::compare(&self.values[idx].0, &ptr) {
                Ordering::Less => {
                    idx = idx + 1;
                },
                _ => {
                    found = true;
                },
            }
        }
        let ghost before = self.values@;
        let ghost v = Vertex(ptr, value);
        self.values.insert(idx, Vertex(ptr, value));
        assert(self.values@ == before.insert(idx as int, v));
    }

    /// Removes the element at `ptr`; nothing happens when it is already gone.
    pub fn apply_removed(&mut self, ptr: &VPtr)
        ensures
            seq_removed(old(self).values@, *ptr, final(self).values@),
            final(self).id == old(self).id,
    {
        let mut idx: usize = 0;
        while idx < self.values.len()
            invariant
                0 <= idx <= self.values.len(),
                self.values == old(self).values,
                self.id == old(self).id,
                forall|j: int| 0 <= j < idx ==> vptr_cmp(#[trigger] self.values[j].0, *ptr) != Ordering::Equal,
            decreases self.values.len() - idx,
        {
            match VPtr::compare(&self.values[idx].0, ptr) {
                Ordering::Equal => {
                    let ghost before = self.values@;
                    self.values.remove(idx);
                    assert(self.values@ == before.remove(idx as int));
                    return;
                },
                _ => {},
            }
            idx = idx + 1;
        }
    }
}

impl<V: Value> Crdt for LSeq<V> {
    type State = Vec<V>;

    type EData = Operation<V>;

    type Cmd = Command<V>;

    open spec fn ready(&self, op: &Command<V>) -> bool {
        match op {
            Command::Insert(i, _) => *i <= self.values.len(),
            Command::RemoveAt(i) => *i < self.values.len(),
        }
    }

    open spec fn prepares(&self, op: Command<V>, r: Operation<V>) -> bool {
        match op {
            Command::Insert(i, value) => i <= self.values.len() && match r {
                Operation::Inserted(p, v) => v == value && p.id == self.id && generated(
                    if i == 0 { Seq::<u8>::empty() } else { self.values[i - 1].0.sequence@ },
                    if i == self.values.len() { Seq::<u8>::empty() } else { self.values[i as int].0.sequence@ },
                    p.sequence@,
                ),
                _ => false,
            },
            Command::RemoveAt(i) => i < self.values.len() && match r {
                Operation::Removed(p) => p.sequence@ == self.values[i as int].0.sequence@ && p.id
                    == self.values[i as int].0.id,
                _ => false,
            },
        }
    }

    open spec fn applies(&self, e: Event<Operation<V>>, next: Self) -> bool {
        &&& next.id == self.id
        &&& match e.data {
            Operation::Inserted(ptr, value) => seq_inserted(self.values@, ptr, value, next.values@),
            Operation::Removed(ptr) => seq_removed(self.values@, ptr, next.values@),
        }
    }

    open spec fn answers(&self, r: Vec<V>) -> bool {
        &&& r.len() == self.values.len()
        &&& forall|i: int| 0 <= i < r.len() ==> #[trigger] r[i] == self.values[i].1
    }

    fn query(&self) -> Vec<V> {
        self.query_values()
    }

    fn prepare(&self, op: Command<V>) -> Operation<V> {
        match op {
            Command::Insert(i, value) => self.prepare_insert(i, value),
            Command::RemoveAt(i) => self.prepare_remove(i),
        }
    }

    fn effect(&mut self, event: Event<Operation<V>>) {
        match event.data {
            Operation::Inserted(ptr, value) => self.apply_inserted(ptr, value),
            Operation::Removed(ptr) => self.apply_removed(&ptr),
        }
    }

    fn duplicate(&self) -> Self {
        let mut values: Vec<Vertex<V>> = Vec::new();
        let mut i: usize = 0;
        while i < self.values.len()
            decreases self.values.len() - i,
        {
            values.push(Vertex(self.values[i].0.duplicate(), self.values[i].1.duplicate()));
            i = i + 1;
        }
        LSeq { values, id: self.id }
    }
}

} // verus!
