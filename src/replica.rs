use vstd::prelude::*;

verus! {

/// Identifier of a replica: an opaque, totally ordered 64-bit number.
#[derive(Clone, Copy, Debug, PartialEq, Eq, Structural, PartialOrd, Ord, Hash, Default)]
pub struct ReplicaId(pub u64);

impl From<u64> for ReplicaId {
    fn from(val: u64) -> (r: ReplicaId)
        ensures
            r.0 == val,
    {
        ReplicaId(val)
    }
}

impl vstd::std_specs::convert::FromSpecImpl<u64> for ReplicaId {
    open spec fn obeys_from_spec() -> bool {
        true
    }

    open spec fn from_spec(v: u64) -> ReplicaId {
        ReplicaId(v)
    }
}

/// Hands out dense replica identifiers, starting at zero.
pub struct ReplicaGenerator {
    count: u64,
}

impl ReplicaGenerator {
    pub closed spec fn next_id(&self) -> u64 {
        self.count
    }

    pub fn new() -> (r: Self)
        ensures
            r.next_id() == 0,
    {
        ReplicaGenerator { count: 0 }
    }

    /// Returns the next identifier; identifiers are handed out in increasing order.
    pub fn gen(&mut self) -> (r: ReplicaId)
        requires
            old(self).next_id() < u64::MAX,
        ensures
            r.0 == old(self).next_id(),
            final(self).next_id() == old(self).next_id() + 1,
    {
        let ret = self.count;
        self.count = self.count + 1;
        ReplicaId(ret)
    }
}

/// A payload that replicated containers can store: it can be duplicated exactly and
/// compared for the equality that the containers use to find an element.
pub trait Value: Sized + Clone {
    spec fn same(&self, other: &Self) -> bool;

    fn duplicate(&self) -> (r: Self)
        ensures
            r == *self,
    ;

    fn same_value(&self, other: &Self) -> (r: bool)
        ensures
            r == self.same(other),
    ;

    proof fn lemma_same_reflexive(&self)
        ensures
            self.same(self),
    ;

    proof fn lemma_same_symmetric(&self, other: &Self)
        requires
            self.same(other),
        ensures
            other.same(self),
    ;

    proof fn lemma_same_transitive(&self, other: &Self, third: &Self)
        requires
            self.same(other),
            other.same(third),
        ensures
            self.same(third),
    ;
}

impl Value for u16 {
    open spec fn same(&self, other: &Self) -> bool {
        *self == *other
    }

    fn duplicate(&self) -> (r: Self) {
        *self
    }

    fn same_value(&self, other: &Self) -> (r: bool) {
        *self == *other
    }

    proof fn lemma_same_reflexive(&self) {
    }

    proof fn lemma_same_symmetric(&self, other: &Self) {
    }

    proof fn lemma_same_transitive(&self, other: &Self, third: &Self) {
    }
}

impl Value for u64 {
    open spec fn same(&self, other: &Self) -> bool {
        *self == *other
    }

    fn duplicate(&self) -> (r: Self) {
        *self
    }

    fn same_value(&self, other: &Self) -> (r: bool) {
        *self == *other
    }

    proof fn lemma_same_reflexive(&self) {
    }

    proof fn lemma_same_symmetric(&self, other: &Self) {
    }

    proof fn lemma_same_transitive(&self, other: &Self, third: &Self) {
    }
}

impl Value for i64 {
    open spec fn same(&self, other: &Self) -> bool {
        *self == *other
    }

    fn duplicate(&self) -> (r: Self) {
        *self
    }

    fn same_value(&self, other: &Self) -> (r: bool) {
        *self == *other
    }

    proof fn lemma_same_reflexive(&self) {
    }

    proof fn lemma_same_symmetric(&self, other: &Self) {
    }

    proof fn lemma_same_transitive(&self, other: &Self, third: &Self) {
    }
}

impl Value for bool {
    open spec fn same(&self, other: &Self) -> bool {
        *self == *other
    }

    fn duplicate(&self) -> (r: Self) {
        *self
    }

    fn same_value(&self, other: &Self) -> (r: bool) {
        *self == *other
    }

    proof fn lemma_same_reflexive(&self) {
    }

    proof fn lemma_same_symmetric(&self, other: &Self) {
    }

    proof fn lemma_same_transitive(&self, other: &Self, third: &Self) {
    }
}

impl Value for String {
    open spec fn same(&self, other: &Self) -> bool {
        self@ == other@
    }

    fn duplicate(&self) -> (r: Self) {
        self.clone()
    }

    fn same_value(&self, other: &Self) -> (r: bool) {
        self.eq(other)
    }

    proof fn lemma_same_reflexive(&self) {
    }

    proof fn lemma_same_symmetric(&self, other: &Self) {
    }

    proof fn lemma_same_transitive(&self, other: &Self, third: &Self) {
    }
}

/// Some element of `r` is the same as `v`.
pub open spec fn has_same<V: Value>(r: Seq<V>, v: V) -> bool {
    exists|m: int| 0 <= m < r.len() && r[m].same(&v)
}

/// The values of `all`, each once: no two kept values are the same, and every value of
/// `all` is the same as a kept one.
pub fn distinct<V: Value>(all: &Vec<V>) -> (r: Vec<V>)
    ensures
        forall|k: int| 0 <= k < r.len() ==> all@.contains(#[trigger] r[k]),
        forall|k: int| 0 <= k < all.len() ==> has_same(r@, #[trigger] all[k]),
        forall|a: int, b: int| 0 <= a < b < r.len() ==> !r[a].same(&r[b]),
{
    let mut r: Vec<V> = Vec::new();
    let mut i: usize = 0;
    while i < all.len()
        invariant
            0 <= i <= all.len(),
            forall|k: int| 0 <= k < r.len() ==> all@.contains(#[trigger] r[k]),
            forall|k: int| 0 <= k < i ==> has_same(r@, #[trigger] all[k]),
            forall|a: int, b: int| 0 <= a < b < r.len() ==> !r[a].same(&r[b]),
        decreases all.len() - i,
    {
        let mut found = false;
        let mut j: usize = 0;
        while j < r.len()
            invariant
                0 <= j <= r.len(),
                i < all.len(),
                found ==> exists|m: int| 0 <= m < r.len() && r[m].same(&all[i as int]),
                !found ==> forall|m: int| 0 <= m < j ==> !r[m].same(&all[i as int]),
            decreases r.len() - j,
        {
            if r[j].same_value(&all[i]) {
                found = true;
            }
            j = j + 1;
        }
        let ghost before = r@;
        if !found {
            r.push(all[i].duplicate());
            proof {
                all[i as int].lemma_same_reflexive();
                assert(r[r.len() - 1].same(&all[i as int]));
            }
        }
        assert forall|k: int| 0 <= k < i + 1 implies has_same(r@, #[trigger] all[k]) by {
            if k < i {
                let m = choose|m: int| 0 <= m < before.len() && before[m].same(&all[k]);
                assert(r[m] == before[m]);
            }
        }
        i = i + 1;
    }
    r
}

} // verus!
