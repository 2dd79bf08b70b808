//! Add-wins observed-remove map: an add-wins set of key-value records whose
//! equality looks at the key alone.
use vstd::prelude::*;

use crate::aworset::{pending, set_join, set_view_wf, AWORSet, SetView};
use crate::dot::{
    lemma_parts_merge_structural, parts_agree, parts_struct, kernel_merged, opt_merged, parts_compact, parts_merged, Parts,
    count_of, dots_of_value, kernel_join, DotKernel};
use crate::replica::{ReplicaId, Value};

verus! {

/// A key with the value carried alongside; two records are the same when their keys are.
#[derive(Clone, Debug, Default)]
pub struct KeyVal<K, V> {
    pub key: K,
    pub val: V,
}

impl<K: Value, V: Value> Value for KeyVal<K, V> {
    open spec fn same(&self, other: &Self) -> bool {
        self.key.same(&other.key)
    }

    fn duplicate(&self) -> (r: Self) {
        KeyVal { key: self.key.duplicate(), val: self.val.duplicate() }
    }

    fn same_value(&self, other: &Self) -> (r: bool) {
        self.key.same_value(&other.key)
    }

    proof fn lemma_same_reflexive(&self) {
        self.key.lemma_same_reflexive();
    }

    proof fn lemma_same_symmetric(&self, other: &Self) {
        self.key.lemma_same_symmetric(&other.key);
    }

    proof fn lemma_same_transitive(&self, other: &Self, third: &Self) {
        self.key.lemma_same_transitive(&other.key, &third.key);
    }
}

/// Order of dots for picking one write among concurrent ones: the higher sequence
/// number wins, and on equal sequence numbers the higher replica id.
pub open spec fn dot_le(a: (u64, u64), b: (u64, u64)) -> bool {
    a.1 < b.1 || (a.1 == b.1 && a.0 <= b.0)
}

/// Whether the live entry at `d` is the one a reader sees for its key.
pub open spec fn wins<K: Value, V>(e: Map<(u64, u64), KeyVal<K, V>>, d: (u64, u64)) -> bool {
    e.contains_key(d) && forall|d2: (u64, u64)|
        #[trigger] e.contains_key(d2) && e[d2].key.same(&e[d].key) ==> dot_le(d2, d)
}

/// Whether `p` is the key and value of a winning live entry.
pub open spec fn winning_pair<K: Value, V>(e: Map<(u64, u64), KeyVal<K, V>>, p: (K, V)) -> bool {
    exists|d: (u64, u64)| wins(e, d) && p == (e[d].key, e[d].val)
}

/// Add-wins observed-remove map.
#[derive(Clone, Debug)]
pub struct AWORMap<K, V> {
    pub keys: AWORSet<KeyVal<K, V>>,
}

impl<K: Value, V: Value + Default> AWORMap<K, V> {
    pub open spec fn view(&self) -> SetView<KeyVal<K, V>> {
        self.keys.view()
    }

    /// The kernel and its pending delta.
    pub open spec fn parts(&self) -> Parts<KeyVal<K, V>> {
        self.keys.parts()
    }

    pub open spec fn wf(&self) -> bool {
        self.keys.wf()
    }

    pub fn new() -> (r: Self)
        ensures
            r.wf(),
            r.keys.kernel.entries@ == Map::<(u64, u64), KeyVal<K, V>>::empty(),
            r.keys.kernel.ctx.clock@ == Map::<u64, u64>::empty(),
            r.keys.kernel.ctx.dot_cloud@ == Set::<(u64, u64)>::empty(),
            r.keys.kernel.ctx.dots() == Set::<(u64, u64)>::empty(),
            r.keys.delta is None,
    {
        AWORMap { keys: AWORSet::default() }
    }

    /// Puts `value` under `key`, replacing the writes of `key` this replica has seen.
    pub fn insert(&mut self, replica: ReplicaId, key: K, value: V)
        requires
            old(self).wf(),
            count_of(old(self).keys.kernel.ctx.clock@, replica.0) < u64::MAX,
        ensures
            ({
                let d = (replica.0, (count_of(old(self).keys.kernel.ctx.clock@, replica.0) + 1) as u64);
                let kv = KeyVal { key, val: value };
                let gone = dots_of_value(old(self).keys.kernel.entries@, kv);
                let p = pending(old(self).keys.delta);
                &&& final(self).keys.kernel.entries@ == old(self).keys.kernel.entries@.remove_keys(
                    gone,
                ).insert(d, kv)
                &&& final(self).keys.kernel.ctx.dots() == old(self).keys.kernel.ctx.dots().insert(d)
                &&& final(self).keys.delta matches Some(nd) && nd.kview() == (p.0.union(gone).insert(d), p.1.insert(d, kv))
            }),
            final(self).wf(),
    {
        self.keys.add(replica, KeyVal { key, val: value });
    }

    /// Removes `key`: every live write of it that this replica has seen.
    pub fn remove(&mut self, replica: ReplicaId, key: K)
        requires
            old(self).wf(),
        ensures
            ({
                let gone = Set::new(
                    |d: (u64, u64)|
                        old(self).keys.kernel.entries@.contains_key(d)
                            && old(self).keys.kernel.entries@[d].key.same(&key),
                );
                let p = pending(old(self).keys.delta);
                &&& final(self).keys.kernel.entries@ == old(self).keys.kernel.entries@.remove_keys(gone)
                &&& final(self).keys.kernel.ctx == old(self).keys.kernel.ctx
                &&& final(self).keys.delta matches Some(nd) && nd.kview() == (p.0.union(gone), p.1)
            }),
            final(self).wf(),
    {
        let probe = KeyVal { key, val: V::default() };
        self.keys.remove(&probe);
        assert(dots_of_value(old(self).keys.kernel.entries@, probe) =~= Set::new(
            |d: (u64, u64)|
                old(self).keys.kernel.entries@.contains_key(d)
                    && old(self).keys.kernel.entries@[d].key.same(&probe.key),
        ));
    }

    /// Folds a delta received from a peer into this map.
    pub fn merge_delta(&mut self, delta: DotKernel<KeyVal<K, V>>)
        requires
            old(self).wf(),
            delta.wf(),
        ensures
            ({
                let nd = match old(self).keys.delta {
                    Some(a) => kernel_join(a.kview(), delta.kview()),
                    None => delta.kview(),
                };
                &&& final(self).keys.delta matches Some(x) && x.kview() == nd
                &&& final(self).keys.kernel.kview() == kernel_join(old(self).keys.kernel.kview(), nd)
            }),
            final(self).wf(),
            parts_compact(old(self).parts()) && delta.ctx.is_compact() ==> opt_merged(
                final(self).parts().1,
                old(self).parts().1,
                Some(delta),
            ) && (final(self).parts().1 matches Some(x) && kernel_merged(final(self).parts().0, old(self).parts().0, x))
                && parts_compact(final(self).parts()),
    {
        self.keys.merge_delta(delta);
    }

    pub fn merge(&self, other: &Self) -> (r: Self)
        requires
            self.wf(),
            other.wf(),
        ensures
            r.view() == set_join(self.view(), other.view()),
            r.wf(),
            parts_compact(self.parts()) && parts_compact(other.parts()) ==> parts_merged(
                r.parts(),
                self.parts(),
                other.parts(),
            ) && parts_compact(r.parts()),
    {
        AWORMap { keys: self.keys.merge(&other.keys) }
    }

    pub fn split_mut(&mut self) -> (r: Option<DotKernel<KeyVal<K, V>>>)
        ensures
            r == old(self).keys.delta,
            final(self).keys.delta is None,
            final(self).keys.kernel == old(self).keys.kernel,
    {
        self.keys.split_mut()
    }

    pub fn split(self) -> (r: (Self, Option<DotKernel<KeyVal<K, V>>>))
        ensures
            r.0.keys.kernel == self.keys.kernel,
            r.0.keys.delta is None,
            r.1 == self.keys.delta,
    {
        let (keys, delta) = self.keys.split();
        (AWORMap { keys }, delta)
    }

    pub fn split_expect_deltas(self) -> (r: (Self, DotKernel<KeyVal<K, V>>))
        requires
            self.keys.delta is Some,
        ensures
            r.0.keys.kernel == self.keys.kernel,
            r.0.keys.delta is None,
            Some(r.1) == self.keys.delta,
    {
        let (keys, delta) = self.keys.split_expect_deltas();
        (AWORMap { keys }, delta)
    }

    /// Whether the live entry at `d` wins for its key.
    fn is_winner(&self, d: (u64, u64)) -> (r: bool)
        requires
            self.keys.kernel.entries@.contains_key(d),
        ensures
            r == wins(self.keys.kernel.entries@, d),
    {
        let e = &self.keys.kernel.entries;
        let key = &e.get(&d).unwrap().key;
        let mut ok = true;
        for (d2, kv2) in it: e.iter()
            invariant
                e@ == self.keys.kernel.entries@,
                e@.contains_key(d),
                *key == e@[d].key,
                it.seq().len() == e@.dom().len(),
                forall|i: int|
                    0 <= i < it.seq().len() ==> #[trigger] e@.contains_key(*it.seq()[i].0)
                        && e@[*it.seq()[i].0] == *it.seq()[i].1,
                ok == forall|i: int|
                    0 <= i < it.index() ==> (#[trigger] e@[*it.seq()[i].0]).key.same(key) ==> dot_le(
                        *it.seq()[i].0,
                        d,
                    ),
                it.index() == it.seq().len() ==> (ok == wins(e@, d)),
        {
            assert(e@.contains_key(*d2) && e@[*d2] == *kv2) by {
                assert(*it.seq()[it.index() as int].0 == *d2);
            }
            if kv2.key.same_value(key) && !(d2.1 < d.1 || (d2.1 == d.1 && d2.0 <= d.0)) {
                ok = false;
            }
            assert forall|x: (u64, u64)|
                it.index() + 1 == it.seq().len() && #[trigger] e@.contains_key(x) implies exists|i: int|
                0 <= i < it.seq().len() && *it.seq()[i].0 == x by {
                assert(it.seq().contains((&x, &e@[x])));
            }
        }
        ok
    }

    /// The map a reader sees: for each live key, the key and value of its winning
    /// write (see `dot_le`).
    pub fn values_owned(&self) -> (r: Vec<(K, V)>)
        ensures
            forall|i: int| 0 <= i < r.len() ==> winning_pair(self.keys.kernel.entries@, #[trigger] r[i]),
            forall|d: (u64, u64)|
                #[trigger] wins(self.keys.kernel.entries@, d) ==> r@.contains(
                    (self.keys.kernel.entries@[d].key, self.keys.kernel.entries@[d].val),
                ),
    {
        let e = &self.keys.kernel.entries;
        let mut r: Vec<(K, V)> = Vec::new();
        for (d, kv) in it: e.iter()
            invariant
                e@ == self.keys.kernel.entries@,
                forall|i: int| 0 <= i < r.len() ==> winning_pair(e@, #[trigger] r[i]),
                it.seq().len() == e@.dom().len(),
                forall|i: int|
                    0 <= i < it.seq().len() ==> #[trigger] e@.contains_key(*it.seq()[i].0)
                        && e@[*it.seq()[i].0] == *it.seq()[i].1,
                forall|i: int|
                    0 <= i < it.index() && wins(e@, #[trigger] *it.seq()[i].0) ==> r@.contains(
                        (e@[*it.seq()[i].0].key, e@[*it.seq()[i].0].val),
                    ),
                it.index() == it.seq().len() ==> forall|x: (u64, u64)|
                    #[trigger] wins(e@, x) ==> r@.contains((e@[x].key, e@[x].val)),
        {
            assert(e@.contains_key(*d) && e@[*d] == *kv) by {
                assert(*it.seq()[it.index() as int].0 == *d);
            }
            let ghost before = r@;
            assert(self.keys.kernel.entries@.contains_key(*d));
            let w = self.is_winner(*d);
            if w {
                r.push((kv.key.duplicate(), kv.val.duplicate()));
                assert(r[r.len() - 1] == (e@[*d].key, e@[*d].val));
            }
            assert forall|i: int|
                0 <= i < it.index() + 1 && wins(e@, #[trigger] *it.seq()[i].0) implies r@.contains(
                (e@[*it.seq()[i].0].key, e@[*it.seq()[i].0].val)) by {
                if i < it.index() {
                    let j = choose|j: int| 0 <= j < before.len() && before[j] == (e@[*it.seq()[i].0].key, e@[*it.seq()[i].0].val);
                    assert(r[j] == before[j]);
                } else {
                    assert(*it.seq()[i].0 == *d);
                    assert(w);
                    assert(r[r.len() - 1] == (e@[*d].key, e@[*d].val));
                }
            }
            assert forall|x: (u64, u64)|
                it.index() + 1 == it.seq().len() && #[trigger] wins(e@, x) implies r@.contains((e@[x].key, e@[x].val)) by {
                assert(it.seq().contains((&x, &e@[x])));
                let j = choose|j: int| 0 <= j < it.seq().len() && it.seq()[j] == (&x, &e@[x]);
                assert(*it.seq()[j].0 == x);
            }
        }
        r
    }
}

impl<K: Value, V: Value + Default> Default for AWORMap<K, V> {
    fn default() -> (r: Self)
        ensures
            r.wf(),
            r.keys.kernel.entries@ == Map::<(u64, u64), KeyVal<K, V>>::empty(),
            r.keys.kernel.ctx.clock@ == Map::<u64, u64>::empty(),
            r.keys.kernel.ctx.dot_cloud@ == Set::<(u64, u64)>::empty(),
            r.keys.kernel.ctx.dots() == Set::<(u64, u64)>::empty(),
            r.keys.delta is None,
    {
        AWORMap::new()
    }
}

/// Merging add-wins maps is commutative, associative and idempotent down to the stored form
/// (entries, clock maps and clouds of the kernel and of the delta), for well-formed
/// values with compacted contexts that never give one dot two values.
pub proof fn lemma_awormap_merge_structural<K: Value, V: Value + Default>(
    a: AWORMap<K, V>,
    b: AWORMap<K, V>,
    c: AWORMap<K, V>,
    ab: AWORMap<K, V>,
    ba: AWORMap<K, V>,
    ab_c: AWORMap<K, V>,
    bc: AWORMap<K, V>,
    a_bc: AWORMap<K, V>,
    aa: AWORMap<K, V>,
)
    requires
        a.wf(),
        b.wf(),
        c.wf(),
        parts_compact(a.parts()),
        parts_compact(b.parts()),
        parts_compact(c.parts()),
        parts_agree(a.parts(), b.parts()),
        parts_agree(b.parts(), c.parts()),
        parts_agree(a.parts(), c.parts()),
        parts_merged(ab.parts(), a.parts(), b.parts()),
        parts_merged(ba.parts(), b.parts(), a.parts()),
        parts_merged(ab_c.parts(), ab.parts(), c.parts()),
        parts_merged(bc.parts(), b.parts(), c.parts()),
        parts_merged(a_bc.parts(), a.parts(), bc.parts()),
        parts_merged(aa.parts(), a.parts(), a.parts()),
    ensures
        parts_struct(ab.parts()) == parts_struct(ba.parts()),
        parts_struct(ab_c.parts()) == parts_struct(a_bc.parts()),
        parts_struct(aa.parts()) == parts_struct(a.parts()),
{
    lemma_parts_merge_structural(
        a.parts(),
        b.parts(),
        c.parts(),
        ab.parts(),
        ba.parts(),
        ab_c.parts(),
        bc.parts(),
        a_bc.parts(),
        aa.parts(),
    );
}


} // verus!
