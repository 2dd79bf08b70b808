//! Delta-state multi-value register: a dot kernel used as the set of concurrent writes.
use vstd::prelude::*;

use crate::aworset::{pending, set_join, set_view_wf, SetView};
use crate::dot::{
    lemma_parts_merge_structural, parts_agree, parts_struct, kernel_merged, opt_merged, parts_compact, parts_merged, Parts,
    count_of, kernel_join, opt_kview, DotKernel};
use crate::replica::{ReplicaId, Value};

verus! {

/// Multi-value register: a write replaces every write it has seen, and concurrent
/// writes are all kept.
#[derive(Debug, Clone, PartialEq)]
pub struct MVReg<V> {
    pub core: DotKernel<V>,
    pub delta: Option<DotKernel<V>>,
}

impl<V: Value> MVReg<V> {
    pub open spec fn view(&self) -> SetView<V> {
        (self.core.kview(), opt_kview(self.delta))
    }

    /// The kernel and its pending delta.
    pub open spec fn parts(&self) -> Parts<V> {
        (self.core, self.delta)
    }

    pub open spec fn wf(&self) -> bool {
        set_view_wf(self.view())
    }

    pub fn new() -> (r: Self)
        ensures
            r.wf(),
            r.core.entries@ == Map::<(u64, u64), V>::empty(),
            r.core.ctx.clock@ == Map::<u64, u64>::empty(),
            r.core.ctx.dot_cloud@ == Set::<(u64, u64)>::empty(),
            r.core.ctx.dots() == Set::<(u64, u64)>::empty(),
            r.delta is None,
    {
        MVReg { core: DotKernel::new(), delta: None }
    }

    /// The live values, one per live write.
    pub fn value(&self) -> (r: Vec<V>)
        ensures
            r.len() == self.core.entries@.len(),
            forall|i: int| 0 <= i < r.len() ==> self.core.entries@.values().contains(#[trigger] r[i]),
            forall|d: (u64, u64)|
                #[trigger] self.core.entries@.contains_key(d) ==> r@.contains(self.core.entries@[d]),
    {
        self.core.values()
    }

    /// Writes `value`: drops every live write, and adds the new one under a fresh dot;
    /// the delta records both.
    pub fn set(&mut self, replica: ReplicaId, value: V)
        requires
            old(self).wf(),
            count_of(old(self).core.ctx.clock@, replica.0) < u64::MAX,
        ensures
            ({
                let d = (replica.0, (count_of(old(self).core.ctx.clock@, replica.0) + 1) as u64);
                let p = pending(old(self).delta);
                &&& final(self).core.entries@ == Map::<(u64, u64), V>::empty().insert(d, value)
                &&& final(self).core.ctx.dots() == old(self).core.ctx.dots().insert(d)
                &&& final(self).delta matches Some(nd) && nd.kview() == (
                    p.0.union(old(self).core.entries@.dom()).insert(d),
                    p.1.insert(d, value),
                )
            }),
            final(self).wf(),
    {
        let mut delta = match self.delta.take() {
            Some(d) => d,
            None => DotKernel::new(),
        };
        self.core.remove_all(&mut delta);
        self.core.add(replica, value, &mut delta);
        self.delta = Some(delta);
    }

    pub fn merge(&self, other: &Self) -> (r: Self)
        requires
            self.wf(),
            other.wf(),
        ensures
            r.view() == set_join(self.view(), other.view()),
            r.wf(),
            parts_compact(self.parts()) && parts_compact(other.parts()) ==> parts_merged(
                r.parts(),
                self.parts(),
                other.parts(),
            ) && parts_compact(r.parts()),
    {
        let delta = match (&self.delta, &other.delta) {
            (Some(a), Some(b)) => Some(a.merge(b)),
            (Some(a), None) => Some(a.duplicate()),
            (None, Some(b)) => Some(b.duplicate()),
            (None, None) => None,
        };
        let core = self.core.merge(&other.core);
        MVReg { core, delta }
    }

    pub fn merge_delta(&mut self, delta: DotKernel<V>)
        requires
            old(self).wf(),
            delta.wf(),
        ensures
            ({
                let nd = match old(self).delta {
                    Some(a) => kernel_join(a.kview(), delta.kview()),
                    None => delta.kview(),
                };
                &&& final(self).delta matches Some(x) && x.kview() == nd
                &&& final(self).core.kview() == kernel_join(old(self).core.kview(), nd)
            }),
            final(self).wf(),
            parts_compact(old(self).parts()) && delta.ctx.is_compact() ==> opt_merged(
                final(self).parts().1,
                old(self).parts().1,
                Some(delta),
            ) && (final(self).parts().1 matches Some(x) && kernel_merged(final(self).parts().0, old(self).parts().0, x))
                && parts_compact(final(self).parts()),
    {
        let delta = match &self.delta {
            Some(a) => a.merge(&delta),
            None => delta,
        };
        self.core = self.core.merge(&delta);
        self.delta = Some(delta);
    }

    /// A copy without the delta, and a copy of the delta.
    pub fn split(&self) -> (r: (Self, Option<DotKernel<V>>))
        ensures
            r.0.view() == (self.view().0, None::<(Set<(u64, u64)>, Map<(u64, u64), V>)>),
            opt_kview(r.1) == self.view().1,
    {
        let delta = match &self.delta {
            Some(d) => Some(d.duplicate()),
            None => None,
        };
        (MVReg { core: self.core.duplicate(), delta: None }, delta)
    }

    /// As `split`, for a register whose delta is there.
    pub fn split_expect_deltas(&self) -> (r: (Self, DotKernel<V>))
        requires
            self.delta is Some,
        ensures
            r.0.view() == (self.view().0, None::<(Set<(u64, u64)>, Map<(u64, u64), V>)>),
            Some(r.1.kview()) == self.view().1,
    {
        let (core, delta) = self.split();
        match delta {
            Some(d) => (core, d),
            None => (core, DotKernel::new()),
        }
    }
}

impl<V: Value> Default for MVReg<V> {
    fn default() -> (r: Self)
        ensures
            r.wf(),
            r.core.entries@ == Map::<(u64, u64), V>::empty(),
            r.core.ctx.clock@ == Map::<u64, u64>::empty(),
            r.core.ctx.dot_cloud@ == Set::<(u64, u64)>::empty(),
            r.core.ctx.dots() == Set::<(u64, u64)>::empty(),
            r.delta is None,
    {
        MVReg::new()
    }
}

/// Merging multi-value registers is commutative, associative and idempotent down to the stored form
/// (entries, clock maps and clouds of the kernel and of the delta), for well-formed
/// values with compacted contexts that never give one dot two values.
pub proof fn lemma_mvreg_merge_structural<V: Value>(
    a: MVReg<V>,
    b: MVReg<V>,
    c: MVReg<V>,
    ab: MVReg<V>,
    ba: MVReg<V>,
    ab_c: MVReg<V>,
    bc: MVReg<V>,
    a_bc: MVReg<V>,
    aa: MVReg<V>,
)
    requires
        a.wf(),
        b.wf(),
        c.wf(),
        parts_compact(a.parts()),
        parts_compact(b.parts()),
        parts_compact(c.parts()),
        parts_agree(a.parts(), b.parts()),
        parts_agree(b.parts(), c.parts()),
        parts_agree(a.parts(), c.parts()),
        parts_merged(ab.parts(), a.parts(), b.parts()),
        parts_merged(ba.parts(), b.parts(), a.parts()),
        parts_merged(ab_c.parts(), ab.parts(), c.parts()),
        parts_merged(bc.parts(), b.parts(), c.parts()),
        parts_merged(a_bc.parts(), a.parts(), bc.parts()),
        parts_merged(aa.parts(), a.parts(), a.parts()),
    ensures
        parts_struct(ab.parts()) == parts_struct(ba.parts()),
        parts_struct(ab_c.parts()) == parts_struct(a_bc.parts()),
        parts_struct(aa.parts()) == parts_struct(a.parts()),
{
    lemma_parts_merge_structural(
        a.parts(),
        b.parts(),
        c.parts(),
        ab.parts(),
        ba.parts(),
        ab_c.parts(),
        bc.parts(),
        a_bc.parts(),
        aa.parts(),
    );
}


} // verus!
