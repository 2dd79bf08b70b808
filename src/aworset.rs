//! Add-wins observed-remove set over a dot kernel, with an accumulated delta.
use vstd::prelude::*;

use crate::dot::{
    lemma_parts_merge_structural, parts_agree, parts_struct, kernel_merged, opt_merged, parts_compact, parts_merged, Parts,
    agree, count_of, dots_of_value, kernel_join, kernel_wf, lemma_kernel_join_associative,
    lemma_kernel_join_commutative, lemma_kernel_join_idempotent, lemma_opt_join_laws, opt_agree,
    opt_join, opt_kview, opt_wf, DotKernel, KernelView,
};
use crate::replica::{distinct, has_same, ReplicaId, Value};

verus! {

/// The view of a set: its kernel and its accumulated delta, if any.
pub type SetView<V> = (KernelView<V>, Option<KernelView<V>>);

/// The view of the merge of two sets.
pub open spec fn set_join<V>(a: SetView<V>, b: SetView<V>) -> SetView<V> {
    (kernel_join(a.0, b.0), opt_join(a.1, b.1))
}

pub open spec fn set_view_wf<V>(a: SetView<V>) -> bool {
    kernel_wf(a.0) && opt_wf(a.1)
}

/// Two sets never give one dot two values, in their kernels nor in their deltas.
pub open spec fn set_agree<V>(a: SetView<V>, b: SetView<V>) -> bool {
    agree(a.0.1, b.0.1) && opt_agree(a.1, b.1)
}

/// The delta that a mutator starts from: the pending one, or an empty kernel.
pub open spec fn pending<V: Value>(d: Option<DotKernel<V>>) -> KernelView<V> {
    match d {
        Some(k) => k.kview(),
        None => (Set::empty(), Map::empty()),
    }
}

/// Add-wins observed-remove set: an element is present while some live dot holds it.
#[derive(Debug, Clone, PartialEq)]
pub struct AWORSet<V> {
    pub kernel: DotKernel<V>,
    pub delta: Option<DotKernel<V>>,
}

impl<V: Value> AWORSet<V> {
    pub open spec fn view(&self) -> SetView<V> {
        (self.kernel.kview(), opt_kview(self.delta))
    }

    /// The kernel and its pending delta.
    pub open spec fn parts(&self) -> Parts<V> {
        (self.kernel, self.delta)
    }

    pub open spec fn wf(&self) -> bool {
        set_view_wf(self.view())
    }

    /// Whether `v` is present.
    pub open spec fn contains_spec(&self, v: V) -> bool {
        exists|d: (u64, u64)|
            self.kernel.entries@.contains_key(d) && #[trigger] self.kernel.entries@[d].same(&v)
    }

    /// A set over `kernel`, with no pending delta.
    pub fn new(kernel: DotKernel<V>) -> (r: Self)
        ensures
            r.kernel == kernel,
            r.delta is None,
    {
        AWORSet { kernel, delta: None }
    }

    /// Number of live entries.
    pub fn len(&self) -> (r: usize)
        ensures
            r == self.kernel.entries@.len(),
    {
        self.kernel.entries.len()
    }

    fn take_delta(&mut self) -> (r: DotKernel<V>)
        requires
            old(self).wf(),
        ensures
            r.kview() == pending(old(self).delta),
            r.wf(),
            final(self).kernel == old(self).kernel,
            final(self).delta is None,
    {
        match self.delta.take() {
            Some(d) => d,
            None => DotKernel::new(),
        }
    }

    /// Adds `value` under a fresh dot of `replica`, first dropping the dots that
    /// held it, so the new dot is its only witness.
    pub fn add(&mut self, replica: ReplicaId, value: V)
        requires
            old(self).wf(),
            count_of(old(self).kernel.ctx.clock@, replica.0) < u64::MAX,
        ensures
            ({
                let d = (replica.0, (count_of(old(self).kernel.ctx.clock@, replica.0) + 1) as u64);
                let gone = dots_of_value(old(self).kernel.entries@, value);
                let p = pending(old(self).delta);
                &&& final(self).kernel.entries@ == old(self).kernel.entries@.remove_keys(gone).insert(
                    d,
                    value,
                )
                &&& final(self).kernel.ctx.dots() == old(self).kernel.ctx.dots().insert(d)
                &&& final(self).delta matches Some(nd) && nd.kview() == (p.0.union(gone).insert(d), p.1.insert(d, value))
                    && nd.ctx.is_compact()
            }),
            final(self).wf(),
    {
        let mut deltas = self.take_delta();
        self.kernel.remove(&value, &mut deltas);
        self.kernel.add(replica, value, &mut deltas);
        self.delta = Some(deltas);
    }

    /// Drops every live entry holding `value`, remembering their dots in the delta.
    pub fn remove(&mut self, value: &V)
        requires
            old(self).wf(),
        ensures
            ({
                let gone = dots_of_value(old(self).kernel.entries@, *value);
                let p = pending(old(self).delta);
                &&& final(self).kernel.entries@ == old(self).kernel.entries@.remove_keys(gone)
                &&& final(self).kernel.ctx == old(self).kernel.ctx
                &&& final(self).delta matches Some(nd) && nd.kview() == (p.0.union(gone), p.1)
                    && nd.ctx.is_compact()
            }),
            final(self).wf(),
    {
        let mut deltas = self.take_delta();
        self.kernel.remove(value, &mut deltas);
        self.delta = Some(deltas);
    }

    /// Merges the kernels, and the deltas where present.
    pub fn merge(&self, other: &Self) -> (r: Self)
        requires
            self.wf(),
            other.wf(),
        ensures
            r.view() == set_join(self.view(), other.view()),
            r.wf(),
            parts_compact(self.parts()) && parts_compact(other.parts()) ==> parts_merged(
                r.parts(),
                self.parts(),
                other.parts(),
            ) && parts_compact(r.parts()),
    {
        let delta = match (&self.delta, &other.delta) {
            (Some(a), Some(b)) => Some(a.merge(b)),
            (Some(a), None) => Some(a.duplicate()),
            (None, Some(b)) => Some(b.duplicate()),
            (None, None) => None,
        };
        let kernel = self.kernel.merge(&other.kernel);
        AWORSet { kernel, delta }
    }

    /// Folds a delta received from a peer into the accumulated delta and the kernel.
    pub fn merge_delta(&mut self, delta: DotKernel<V>)
        requires
            old(self).wf(),
            delta.wf(),
        ensures
            ({
                let nd = match old(self).delta {
                    Some(a) => kernel_join(a.kview(), delta.kview()),
                    None => delta.kview(),
                };
                &&& final(self).delta matches Some(x) && x.kview() == nd
                &&& final(self).kernel.kview() == kernel_join(old(self).kernel.kview(), nd)
            }),
            final(self).wf(),
            parts_compact(old(self).parts()) && delta.ctx.is_compact() ==> opt_merged(
                final(self).parts().1,
                old(self).parts().1,
                Some(delta),
            ) && (final(self).parts().1 matches Some(x) && kernel_merged(final(self).parts().0, old(self).parts().0, x))
                && parts_compact(final(self).parts()),
    {
        let new_deltas = match &self.delta {
            Some(a) => a.merge(&delta),
            None => delta,
        };
        self.kernel = self.kernel.merge(&new_deltas);
        self.delta = Some(new_deltas);
    }

    /// Takes the pending delta out, leaving none.
    pub fn split_mut(&mut self) -> (r: Option<DotKernel<V>>)
        ensures
            r == old(self).delta,
            final(self).delta is None,
            final(self).kernel == old(self).kernel,
    {
        self.delta.take()
    }

    /// The set without its delta, and the delta.
    pub fn split(self) -> (r: (AWORSet<V>, Option<DotKernel<V>>))
        ensures
            r.0.kernel == self.kernel,
            r.0.delta is None,
            r.1 == self.delta,
    {
        (AWORSet::new(self.kernel), self.delta)
    }

    /// The set without its delta, and the delta, which must be there.
    pub fn split_expect_deltas(self) -> (r: (AWORSet<V>, DotKernel<V>))
        requires
            self.delta is Some,
        ensures
            r.0.kernel == self.kernel,
            r.0.delta is None,
            Some(r.1) == self.delta,
    {
        let (set, maybe_deltas) = self.split();
        match maybe_deltas {
            Some(d) => (set, d),
            None => (set, DotKernel::new()),
        }
    }

    /// The live values in dot order; a value held by several dots appears once per dot.
    pub fn values_iter(&self) -> (r: Vec<V>)
        ensures
            r.len() == self.kernel.entries@.len(),
            forall|i: int| 0 <= i < r.len() ==> self.kernel.entries@.values().contains(#[trigger] r[i]),
            forall|d: (u64, u64)|
                #[trigger] self.kernel.entries@.contains_key(d) ==> r@.contains(self.kernel.entries@[d]),
    {
        self.kernel.values()
    }

    /// The distinct present values.
    pub fn value(&self) -> (r: Vec<V>)
        ensures
            forall|i: int| 0 <= i < r.len() ==> self.kernel.entries@.values().contains(#[trigger] r[i]),
            forall|d: (u64, u64)|
                #[trigger] self.kernel.entries@.contains_key(d) ==> exists|i: int|
                    0 <= i < r.len() && r[i].same(&self.kernel.entries@[d]),
            forall|i: int, j: int| 0 <= i < j < r.len() ==> !r[i].same(&r[j]),
    {
        let all = self.kernel.values();
        let r = distinct(&all);
        assert forall|i: int| 0 <= i < r.len() implies self.kernel.entries@.values().contains(#[trigger] r[i]) by {
            let k = choose|k: int| 0 <= k < all.len() && all[k] == r[i];
        }
        assert forall|d: (u64, u64)| #[trigger] self.kernel.entries@.contains_key(d) implies exists|i: int|
            0 <= i < r.len() && r[i].same(&self.kernel.entries@[d]) by {
            let k = choose|k: int| 0 <= k < all.len() && all[k] == self.kernel.entries@[d];
            assert(has_same(r@, all[k]));
        }
        r
    }
}

impl<V: Value> Default for AWORSet<V> {
    fn default() -> (r: Self)
        ensures
            r.wf(),
            r.kernel.entries@ == Map::<(u64, u64), V>::empty(),
            r.kernel.ctx.clock@ == Map::<u64, u64>::empty(),
            r.kernel.ctx.dot_cloud@ == Set::<(u64, u64)>::empty(),
            r.kernel.ctx.dots() == Set::<(u64, u64)>::empty(),
            r.delta is None,
    {
        AWORSet { kernel: DotKernel::new(), delta: None }
    }
}

/// Merging sets is commutative, associative and idempotent, for well-formed sets that
/// never give one dot two values. The views of maps (`AWORMap`) and of delta-state
/// registers (`MVReg`) are set views, merged by `set_join`: the law holds of them too.
pub proof fn lemma_set_join_laws<V>(a: SetView<V>, b: SetView<V>, c: SetView<V>)
    requires
        set_view_wf(a),
        set_view_wf(b),
        set_view_wf(c),
        set_agree(a, b),
        set_agree(b, c),
        set_agree(a, c),
    ensures
        set_join(a, b) == set_join(b, a),
        set_join(set_join(a, b), c) == set_join(a, set_join(b, c)),
        set_join(a, a) == a,
{
    lemma_kernel_join_commutative(a.0, b.0);
    lemma_kernel_join_associative(a.0, b.0, c.0);
    lemma_kernel_join_idempotent(a.0);
    lemma_opt_join_laws(a.1, b.1, c.1);
}

/// Merging add-wins sets is commutative, associative and idempotent down to the stored form
/// (entries, clock maps and clouds of the kernel and of the delta), for well-formed
/// values with compacted contexts that never give one dot two values.
pub proof fn lemma_aworset_merge_structural<V: Value>(
    a: AWORSet<V>,
    b: AWORSet<V>,
    c: AWORSet<V>,
    ab: AWORSet<V>,
    ba: AWORSet<V>,
    ab_c: AWORSet<V>,
    bc: AWORSet<V>,
    a_bc: AWORSet<V>,
    aa: AWORSet<V>,
)
    requires
        a.wf(),
        b.wf(),
        c.wf(),
        parts_compact(a.parts()),
        parts_compact(b.parts()),
        parts_compact(c.parts()),
        parts_agree(a.parts(), b.parts()),
        parts_agree(b.parts(), c.parts()),
        parts_agree(a.parts(), c.parts()),
        parts_merged(ab.parts(), a.parts(), b.parts()),
        parts_merged(ba.parts(), b.parts(), a.parts()),
        parts_merged(ab_c.parts(), ab.parts(), c.parts()),
        parts_merged(bc.parts(), b.parts(), c.parts()),
        parts_merged(a_bc.parts(), a.parts(), bc.parts()),
        parts_merged(aa.parts(), a.parts(), a.parts()),
    ensures
        parts_struct(ab.parts()) == parts_struct(ba.parts()),
        parts_struct(ab_c.parts()) == parts_struct(a_bc.parts()),
        parts_struct(aa.parts()) == parts_struct(a.parts()),
{
    lemma_parts_merge_structural(
        a.parts(),
        b.parts(),
        c.parts(),
        ab.parts(),
        ba.parts(),
        ab_c.parts(),
        bc.parts(),
        a_bc.parts(),
        aa.parts(),
    );
}


} // verus!
