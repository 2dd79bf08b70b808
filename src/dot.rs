//! Dotted version vectors: dots, dot contexts and the dot kernel, the causal
//! store that the delta-state containers are built on.
use std::collections::{BTreeMap, BTreeSet};
use vstd::prelude::*;

pub use crate::clock::{count_of, covers, max_clock, max_merge};
use crate::replica::{ReplicaId, Value};

verus! {

broadcast use vstd::std_specs::btree::group_btree_axioms;

/// Mapping from replica to the highest counter seen from it.
#[derive(Debug, Clone, PartialEq)]
pub struct VectorClock(pub BTreeMap<u64, u64>);

impl View for VectorClock {
    type V = Map<u64, u64>;

    open spec fn view(&self) -> Map<u64, u64> {
        self.0@
    }
}

impl VectorClock {
    pub fn new() -> (r: Self)
        ensures
            r@ == Map::<u64, u64>::empty(),
    {
        VectorClock(BTreeMap::new())
    }

    pub fn duplicate(&self) -> (r: Self)
        ensures
            r@ == self@,
    {
        VectorClock(self.0.clone())
    }

    /// The counter of `replica`, zero when it is missing.
    pub fn get(&self, replica: u64) -> (r: u64)
        ensures
            r == count_of(self@, replica),
    {
        match self.0.get(&replica) {
            Some(v) => *v,
            None => 0,
        }
    }
}

/// A single write: the replica that made it and its sequence number there.
#[derive(Debug, Clone, Copy, PartialEq, Eq, Structural, PartialOrd, Ord, Hash)]
pub struct Dot(pub ReplicaId, pub u64);

impl Dot {
    pub open spec fn key(self) -> (u64, u64) {
        (self.0.0, self.1)
    }
}

/// The set of dots a replica has observed: every dot implied by `clock`, and the
/// loose dots of `dot_cloud`.
#[derive(Debug, Clone, PartialEq)]
pub struct DotCtx {
    pub clock: VectorClock,
    pub dot_cloud: BTreeSet<(u64, u64)>,
}

impl DotCtx {
    /// What `contains` answers for a dot.
    pub open spec fn has(&self, d: (u64, u64)) -> bool {
        covers(self.clock@, d) || self.dot_cloud@.contains(d)
    }

    /// The dots observed (sequence numbers start at one).
    pub open spec fn dots(&self) -> Set<(u64, u64)> {
        Set::new(|d: (u64, u64)| d.1 >= 1 && self.has(d))
    }

    /// No loose dot is implied by the clock or could extend it.
    pub open spec fn is_compact(&self) -> bool {
        forall|d: (u64, u64)| #[trigger]
            self.dot_cloud@.contains(d) ==> d.1 > count_of(self.clock@, d.0) + 1
    }

    pub fn new() -> (r: Self)
        ensures
            r.clock@ == Map::<u64, u64>::empty(),
            r.dot_cloud@ == Set::<(u64, u64)>::empty(),
            r.dots() == Set::<(u64, u64)>::empty(),
            r.is_compact(),
    {
        let r = DotCtx { clock: VectorClock::new(), dot_cloud: BTreeSet::new() };
        assert(r.dots() =~= Set::<(u64, u64)>::empty());
        r
    }

    /// Adds a loose dot.
    pub fn add(&mut self, dot: Dot)
        ensures
            final(self).clock@ == old(self).clock@,
            final(self).dot_cloud@ == old(self).dot_cloud@.insert(dot.key()),
    {
        self.dot_cloud.insert((dot.0.0, dot.1));
    }

    pub fn contains(&self, dot: Dot) -> (r: bool)
        ensures
            r == self.has(dot.key()),
    {
        let id = dot.0.0;
        let n = dot.1;
        match self.clock.0.get(&id) {
            Some(found) => {
                if *found >= n {
                    true
                } else {
                    self.dot_cloud.contains(&(id, n))
                }
            },
            None => self.dot_cloud.contains(&(id, n)),
        }
    }

    /// Allocates the next dot of `replica` by advancing its counter.
    pub fn next_dot(&mut self, replica: ReplicaId) -> (r: Dot)
        requires
            count_of(old(self).clock@, replica.0) < u64::MAX,
        ensures
            r == Dot(replica, (count_of(old(self).clock@, replica.0) + 1) as u64),
            final(self).clock@ == old(self).clock@.insert(replica.0, r.1),
            final(self).dot_cloud@ == old(self).dot_cloud@,
            final(self).dots() == old(self).dots().insert(r.key()),
    {
        let cur = self.clock.get(replica.0);
        let val = cur + 1;
        self.clock.0.insert(replica.0, val);
        let r = Dot(replica, val);
        assert(self.dots() =~= old(self).dots().insert(r.key()));
        r
    }

    /// Pointwise maximum of the clocks, union of the clouds, compacted.
    pub fn merge(&self, other: &Self) -> (r: Self)
        ensures
            r.dots() == self.dots().union(other.dots()),
            r.is_compact(),
            self.is_compact() && other.is_compact() ==> r.clock@.dom() == self.clock@.dom().union(
                other.clock@.dom(),
            ),
    {
        let clock = merge_clocks(&self.clock, &other.clock);
        let mut dot_cloud = self.dot_cloud.clone();
        let ghost mut done: Set<(u64, u64)> = Set::empty();
        for d in it: other.dot_cloud.iter()
            invariant
                dot_cloud@ == self.dot_cloud@.union(done),
                done.subset_of(other.dot_cloud@),
                forall|j: int| 0 <= j < it.index() ==> done.contains(it.seq().unref()[j]),
                forall|j: int| 0 <= j < it.seq().len() ==> other.dot_cloud@.contains(it.seq().unref()[j]),
                it.index() == it.seq().len() ==> other.dot_cloud@.subset_of(done),
        {
            proof {
                done = done.insert(*d);
                assert(it.seq().unref()[it.index() as int] == *d);
            }
            dot_cloud.insert(*d);
            assert(dot_cloud@ =~= self.dot_cloud@.union(done));
            assert forall|e: (u64, u64)|
                it.index() + 1 == it.seq().len() && other.dot_cloud@.contains(e) implies done.contains(e) by {
                assert(it.seq().unref().to_set().contains(e));
            }
        }
        let mut ret = DotCtx { clock, dot_cloud };
        assert(ret.dots() =~= self.dots().union(other.dots()));
        assert(ret.clock@.dom() =~= self.clock@.dom().union(other.clock@.dom()));
        let ghost pre = ret;
        ret.compact();
        proof {
            if self.is_compact() && other.is_compact() {
                assert forall|k: u64| ret.clock@.contains_key(k) implies self.clock@.dom().union(
                    other.clock@.dom(),
                ).contains(k) by {
                    if !pre.clock@.contains_key(k) {
                        assert(pre.dot_cloud@.contains((k, 1)));
                    }
                }
                assert(ret.clock@.dom() =~= self.clock@.dom().union(other.clock@.dom()));
            }
        }
        ret
    }

    /// Promotes each loose dot that extends the clock, and drops each loose dot the
    /// clock already implies, until no loose dot is left to promote or drop.
    pub fn compact(&mut self)
        ensures
            final(self).dots() == old(self).dots(),
            final(self).is_compact(),
            old(self).clock@.dom().subset_of(final(self).clock@.dom()),
            forall|r: u64|
                #[trigger] final(self).clock@.contains_key(r) ==> old(self).clock@.contains_key(r)
                    || old(self).dot_cloud@.contains((r, 1)),
    {
        let ghost start = self.dots();
        loop
            invariant
                self.dots() == start,
                old(self).clock@.dom().subset_of(self.clock@.dom()),
                forall|r: u64|
                    #[trigger] self.clock@.contains_key(r) ==> old(self).clock@.contains_key(r)
                        || old(self).dot_cloud@.contains((r, 1)),
                self.dot_cloud@.subset_of(old(self).dot_cloud@),
            ensures
                self.dots() == start,
                self.is_compact(),
                old(self).clock@.dom().subset_of(self.clock@.dom()),
                forall|r: u64|
                    #[trigger] self.clock@.contains_key(r) ==> old(self).clock@.contains_key(r)
                        || old(self).dot_cloud@.contains((r, 1)),
            decreases self.dot_cloud@.len(),
        {
            let snapshot = self.dot_cloud.clone();
            let ghost c0 = self.clock@;
            let mut kept: BTreeSet<(u64, u64)> = BTreeSet::new();
            let mut changed = false;
            let ghost mut done: Set<(u64, u64)> = Set::empty();
            let ghost mut witness: (u64, u64) = (0, 0);
            for d in it: snapshot.iter()
                invariant
                    self.dot_cloud@ == snapshot@,
                    done.subset_of(snapshot@),
                    kept@.subset_of(done),
                    forall|j: int| 0 <= j < it.index() ==> done.contains(it.seq().unref()[j]),
                    forall|j: int| 0 <= j < it.seq().len() ==> snapshot@.contains(it.seq().unref()[j]),
                    forall|j: int|
                        it.index() <= j < it.seq().len() ==> !done.contains(it.seq().unref()[j]),
                    it.index() == it.seq().len() ==> snapshot@.subset_of(done),
                    forall|e: (u64, u64)| covers(c0, e) ==> covers(self.clock@, e),
                    forall|e: (u64, u64)|
                        e.1 >= 1 ==> ((covers(c0, e) || snapshot@.contains(e)) <==> (covers(
                            self.clock@,
                            e,
                        ) || kept@.contains(e) || (snapshot@.contains(e) && !done.contains(e)))),
                    !changed ==> self.clock@ == c0,
                    !changed ==> forall|e: (u64, u64)|
                        kept@.contains(e) ==> e.1 > count_of(c0, e.0) + 1,
                    changed ==> done.contains(witness) && !kept@.contains(witness),
                    snapshot@.subset_of(old(self).dot_cloud@),
                    old(self).clock@.dom().subset_of(self.clock@.dom()),
                    forall|r: u64|
                        #[trigger] self.clock@.contains_key(r) ==> old(self).clock@.contains_key(r)
                            || old(self).dot_cloud@.contains((r, 1)),
            {
                let id = d.0;
                let n = d.1;
                proof {
                    assert(it.seq().unref()[it.index() as int] == *d);
                    assert(it.seq().unref().no_duplicates());
                    done = done.insert(*d);
                }
                let n2 = self.clock.get(id);
                if n2 < u64::MAX && n == n2 + 1 {
                    assert(snapshot@.contains(*d));
                    self.clock.0.insert(id, n);
                    changed = true;
                    proof {
                        witness = *d;
                    }
                } else if n <= n2 {
                    changed = true;
                    proof {
                        witness = *d;
                    }
                } else {
                    kept.insert((id, n));
                }
                assert forall|e: (u64, u64)|
                    it.index() + 1 == it.seq().len() && snapshot@.contains(e) implies done.contains(e) by {
                    assert(it.seq().unref().to_set().contains(e));
                }
            }
            proof {
                assert(done =~= snapshot@);
                if changed {
                    vstd::set_lib::lemma_len_subset(kept@, snapshot@.remove(witness));
                }
            }
            self.dot_cloud = kept;
            assert(self.dots() =~= start);
            if !changed {
                break;
            }
        }
    }
}

/// Pointwise maximum of two vector clocks.
pub fn merge_clocks(a: &VectorClock, b: &VectorClock) -> (r: VectorClock)
    ensures
        r@ == max_clock(a@, b@),
{
    VectorClock(max_merge(&a.0, &b.0))
}

impl Default for DotCtx {
    fn default() -> (r: Self)
        ensures
            r.clock@ == Map::<u64, u64>::empty(),
            r.dot_cloud@ == Set::<(u64, u64)>::empty(),
    {
        DotCtx::new()
    }
}

impl<V: Value> Default for DotKernel<V> {
    fn default() -> (r: Self)
        ensures
            r.wf(),
            r.ctx.dots() == Set::<(u64, u64)>::empty(),
            r.entries@ == Map::<(u64, u64), V>::empty(),
    {
        DotKernel::new()
    }
}

/// Whether `r` is what merging `a` and `b` gives: the dots of both, compacted, over
/// the replicas of both clocks.
pub open spec fn ctx_merged(r: DotCtx, a: DotCtx, b: DotCtx) -> bool {
    &&& r.dots() == a.dots().union(b.dots())
    &&& r.is_compact()
    &&& r.clock@.dom() == a.clock@.dom().union(b.clock@.dom())
}

/// A compacted context is determined by the dots it observes and the replicas its
/// clock names.
pub proof fn lemma_compact_canonical(x: DotCtx, y: DotCtx)
    requires
        x.is_compact(),
        y.is_compact(),
        x.dots() == y.dots(),
        x.clock@.dom() == y.clock@.dom(),
    ensures
        x.clock@ == y.clock@,
        x.dot_cloud@ == y.dot_cloud@,
{
    assert forall|r: u64| x.clock@.contains_key(r) implies x.clock@[r] == y.clock@[r] by {
        if x.clock@[r] < y.clock@[r] {
            let d = (r, (x.clock@[r] + 1) as u64);
            assert(y.dots().contains(d));
            assert(x.dots().contains(d));
            assert(x.dot_cloud@.contains(d));
        } else if x.clock@[r] > y.clock@[r] {
            let d = (r, (y.clock@[r] + 1) as u64);
            assert(x.dots().contains(d));
            assert(y.dots().contains(d));
            assert(y.dot_cloud@.contains(d));
        }
    }
    assert(x.clock@ =~= y.clock@);
    assert forall|d: (u64, u64)| x.dot_cloud@.contains(d) implies y.dot_cloud@.contains(d) by {
        assert(x.dots().contains(d));
        assert(y.dots().contains(d));
    }
    assert forall|d: (u64, u64)| y.dot_cloud@.contains(d) implies x.dot_cloud@.contains(d) by {
        assert(y.dots().contains(d));
        assert(x.dots().contains(d));
    }
    assert(x.dot_cloud@ =~= y.dot_cloud@);
}

/// Merging compacted dot contexts is commutative, associative and idempotent, down
/// to the clock map and the cloud of loose dots.
pub proof fn lemma_ctx_merge_structural(
    a: DotCtx,
    b: DotCtx,
    c: DotCtx,
    ab: DotCtx,
    ba: DotCtx,
    ab_c: DotCtx,
    bc: DotCtx,
    a_bc: DotCtx,
    aa: DotCtx,
)
    requires
        a.is_compact(),
        b.is_compact(),
        c.is_compact(),
        ctx_merged(ab, a, b),
        ctx_merged(ba, b, a),
        ctx_merged(ab_c, ab, c),
        ctx_merged(bc, b, c),
        ctx_merged(a_bc, a, bc),
        ctx_merged(aa, a, a),
    ensures
        ab.clock@ == ba.clock@ && ab.dot_cloud@ == ba.dot_cloud@,
        ab_c.clock@ == a_bc.clock@ && ab_c.dot_cloud@ == a_bc.dot_cloud@,
        aa.clock@ == a.clock@ && aa.dot_cloud@ == a.dot_cloud@,
{
    lemma_ctx_join_laws(a, b, c);
    assert(ab.dots() =~= ba.dots());
    assert(ab.clock@.dom() =~= ba.clock@.dom());
    lemma_compact_canonical(ab, ba);
    assert(ab_c.dots() =~= a_bc.dots());
    assert(ab_c.clock@.dom() =~= a_bc.clock@.dom());
    lemma_compact_canonical(ab_c, a_bc);
    assert(aa.dots() =~= a.dots());
    assert(aa.clock@.dom() =~= a.clock@.dom());
    lemma_compact_canonical(aa, a);
}

/// Two entry maps never give one dot two different values.
pub open spec fn agree<V>(a: Map<(u64, u64), V>, b: Map<(u64, u64), V>) -> bool {
    forall|d: (u64, u64)|
        a.contains_key(d) && b.contains_key(d) ==> #[trigger] a[d] == #[trigger] b[d]
}

/// The entries that survive a kernel merge: an entry of one side stays unless the
/// other side observed its dot and dropped it; the value of `a` is kept where both hold one.
pub open spec fn merged_entries<V>(
    a: Map<(u64, u64), V>,
    da: Set<(u64, u64)>,
    b: Map<(u64, u64), V>,
    db: Set<(u64, u64)>,
) -> Map<(u64, u64), V> {
    Map::new(
        |d: (u64, u64)|
            (a.contains_key(d) && !(db.contains(d) && !b.contains_key(d))) || (b.contains_key(d)
                && !a.contains_key(d) && !da.contains(d)),
        |d: (u64, u64)|
            if a.contains_key(d) {
                a[d]
            } else {
                b[d]
            },
    )
}

/// The observed dots and the live entries of a kernel.
pub type KernelView<V> = (Set<(u64, u64)>, Map<(u64, u64), V>);

/// A kernel view whose live entries are all observed.
pub open spec fn kernel_wf<V>(k: KernelView<V>) -> bool {
    k.1.dom().subset_of(k.0)
}

/// The view of the merge of two kernels.
pub open spec fn kernel_join<V>(a: KernelView<V>, b: KernelView<V>) -> KernelView<V> {
    (a.0.union(b.0), merged_entries(a.1, a.0, b.1, b.0))
}

/// The dots of `m` whose value is the same as `v`.
pub open spec fn dots_of_value<V: Value>(m: Map<(u64, u64), V>, v: V) -> Set<(u64, u64)> {
    Set::new(|d: (u64, u64)| m.contains_key(d) && m[d].same(&v))
}

/// A causal store: live entries from dot to value, under the context of every dot
/// ever generated or observed.
#[derive(Debug, Clone, PartialEq)]
pub struct DotKernel<V> {
    pub ctx: DotCtx,
    pub entries: BTreeMap<(u64, u64), V>,
}

impl<V: Value> DotKernel<V> {
    pub open spec fn kview(&self) -> KernelView<V> {
        (self.ctx.dots(), self.entries@)
    }

    /// Every live entry is observed by the context.
    pub open spec fn wf(&self) -> bool {
        kernel_wf(self.kview())
    }

    pub fn new() -> (r: Self)
        ensures
            r.wf(),
            r.ctx.is_compact(),
            r.ctx.dots() == Set::<(u64, u64)>::empty(),
            r.ctx.clock@ == Map::<u64, u64>::empty(),
            r.ctx.dot_cloud@ == Set::<(u64, u64)>::empty(),
            r.entries@ == Map::<(u64, u64), V>::empty(),
    {
        DotKernel { ctx: DotCtx::new(), entries: BTreeMap::new() }
    }

    /// A copy of the kernel.
    pub fn duplicate(&self) -> (r: Self)
        ensures
            r.ctx.clock@ == self.ctx.clock@,
            r.ctx.dot_cloud@ == self.ctx.dot_cloud@,
            r.entries@ == self.entries@,
    {
        DotKernel {
            ctx: DotCtx { clock: self.ctx.clock.duplicate(), dot_cloud: self.ctx.dot_cloud.clone() },
            entries: self.entries.clone(),
        }
    }

    /// The live values, in dot order.
    pub fn values(&self) -> (r: Vec<V>)
        ensures
            r.len() == self.entries@.len(),
            forall|i: int| 0 <= i < r.len() ==> self.entries@.values().contains(#[trigger] r[i]),
            forall|d: (u64, u64)|
                #[trigger] self.entries@.contains_key(d) ==> r@.contains(self.entries@[d]),
    {
        let mut r: Vec<V> = Vec::new();
        for (d, v) in it: self.entries.iter()
            invariant
                r.len() == it.index(),
                it.seq().len() == self.entries@.dom().len(),
                forall|i: int|
                    0 <= i < it.seq().len() ==> #[trigger] self.entries@.contains_key(*it.seq()[i].0)
                        && self.entries@[*it.seq()[i].0] == *it.seq()[i].1,
                forall|i: int| 0 <= i < r.len() ==> r[i] == *it.seq()[i].1,
                forall|i: int| 0 <= i < r.len() ==> self.entries@.values().contains(#[trigger] r[i]),
                it.index() == it.seq().len() ==> forall|k: (u64, u64)|
                    #[trigger] self.entries@.contains_key(k) ==> r@.contains(self.entries@[k]),
                forall|d: (u64, u64)|
                    self.entries@.contains_key(d) ==> it.seq().contains((&d, &self.entries@[d])),
        {
            assert(self.entries@.contains_key(*d) && self.entries@[*d] == *v) by {
                assert(*it.seq()[it.index() as int].0 == *d);
            }
            r.push(v.duplicate());
            assert forall|k: (u64, u64)|
                it.index() + 1 == it.seq().len() && #[trigger] self.entries@.contains_key(k) implies r@.contains(
                self.entries@[k]) by {
                assert(it.seq().contains((&k, &self.entries@[k])));
                let i = choose|i: int| 0 <= i < it.seq().len() && it.seq()[i] == (&k, &self.entries@[k]);
                assert(r[i] == self.entries@[k]);
            }
        }
        r
    }

    /// Join of two kernels: entries unseen by the other side are kept, entries the
    /// other side observed and dropped are dropped; contexts are merged.
    pub fn merge(&self, other: &Self) -> (r: Self)
        requires
            self.wf(),
            other.wf(),
        ensures
            r.kview() == kernel_join(self.kview(), other.kview()),
            r.wf(),
            r.ctx.is_compact(),
            self.ctx.is_compact() && other.ctx.is_compact() ==> kernel_merged(r, *self, *other),
    {
        let mut entries = self.entries.clone();
        let ghost mut done: Set<(u64, u64)> = Set::empty();
        for (d, v) in it: other.entries.iter()
            invariant
                entries@ == merged_entries(self.entries@, self.ctx.dots(), other.entries@.restrict(done), Set::empty()),
                done.subset_of(other.entries@.dom()),
                it.seq().len() == other.entries@.dom().len(),
                forall|i: int|
                    0 <= i < it.seq().len() ==> #[trigger] other.entries@.contains_key(*it.seq()[i].0)
                        && other.entries@[*it.seq()[i].0] == *it.seq()[i].1,
                forall|i: int| 0 <= i < it.index() ==> done.contains(*it.seq()[i].0),
                it.index() == it.seq().len() ==> other.entries@.dom().subset_of(done),
                self.wf(),
                other.wf(),
        {
            assert(other.entries@.contains_key(*d) && other.entries@[*d] == *v) by {
                assert(*it.seq()[it.index() as int].0 == *d);
            }
            proof {
                done = done.insert(*d);
            }
            let dot = Dot(ReplicaId(d.0), d.1);
            if !(self.entries.contains_key(d) || self.ctx.contains(dot)) {
                entries.insert(*d, v.duplicate());
            }
            assert(entries@ =~= merged_entries(self.entries@, self.ctx.dots(), other.entries@.restrict(done), Set::empty()));
            assert forall|k: (u64, u64)|
                it.index() + 1 == it.seq().len() && other.entries@.contains_key(k) implies done.contains(k) by {
                assert(it.seq().contains((&k, &other.entries@[k])));
            }
        }
        assert(other.entries@.restrict(done) =~= other.entries@);
        let ghost mid = entries@;
        let ghost mut seen: Set<(u64, u64)> = Set::empty();
        for (d, v) in it: self.entries.iter()
            invariant
                forall|k: (u64, u64)|
                    entries@.contains_key(k) <==> (mid.contains_key(k) && !(seen.contains(k)
                        && other.ctx.dots().contains(k) && !other.entries@.contains_key(k))),
                forall|k: (u64, u64)|
                    entries@.contains_key(k) ==> mid.contains_key(k) && entries@[k] == mid[k],
                mid == merged_entries(self.entries@, self.ctx.dots(), other.entries@, Set::empty()),
                seen.subset_of(self.entries@.dom()),
                it.seq().len() == self.entries@.dom().len(),
                forall|i: int|
                    0 <= i < it.seq().len() ==> #[trigger] self.entries@.contains_key(*it.seq()[i].0)
                        && self.entries@[*it.seq()[i].0] == *it.seq()[i].1,
                forall|i: int| 0 <= i < it.index() ==> seen.contains(*it.seq()[i].0),
                it.index() == it.seq().len() ==> self.entries@.dom().subset_of(seen),
                self.wf(),
                other.wf(),
        {
            assert(self.entries@.contains_key(*d)) by {
                assert(*it.seq()[it.index() as int].0 == *d);
            }
            proof {
                seen = seen.insert(*d);
            }
            assert(self.ctx.dots().contains(*d));
            let dot = Dot(ReplicaId(d.0), d.1);
            if other.ctx.contains(dot) && !other.entries.contains_key(d) {
                entries.remove(d);
            }
            assert forall|k: (u64, u64)|
                it.index() + 1 == it.seq().len() && self.entries@.contains_key(k) implies seen.contains(k) by {
                assert(it.seq().contains((&k, &self.entries@[k])));
            }
        }
        assert(self.entries@.dom().subset_of(seen));
        let ghost target = merged_entries(self.entries@, self.ctx.dots(), other.entries@, other.ctx.dots());
        assert forall|k: (u64, u64)| entries@.contains_key(k) <==> target.contains_key(k) by {
            if self.entries@.contains_key(k) {
                assert(seen.contains(k));
            } else {
                assert(!seen.contains(k));
            }
        }
        assert forall|k: (u64, u64)| entries@.contains_key(k) implies entries@[k] == target[k] by {
            assert(mid.contains_key(k));
            assert(target.contains_key(k));
            if self.entries@.contains_key(k) {
                assert(mid[k] == self.entries@[k]);
                assert(target[k] == self.entries@[k]);
            } else {
                assert(mid[k] == other.entries@[k]);
                assert(target[k] == other.entries@[k]);
            }
        }
        let ctx = self.ctx.merge(&other.ctx);
        let r = DotKernel { ctx, entries };
        assert(r.entries@ =~= merged_entries(self.entries@, self.ctx.dots(), other.entries@, other.ctx.dots()));
        r
    }

    /// Allocates the next dot of `replica` and maps it to `value`, here and in `delta`.
    pub fn add(&mut self, replica: ReplicaId, value: V, delta: &mut Self)
        requires
            count_of(old(self).ctx.clock@, replica.0) < u64::MAX,
            old(self).wf(),
            old(delta).wf(),
        ensures
            ({
                let d = (replica.0, (count_of(old(self).ctx.clock@, replica.0) + 1) as u64);
                &&& final(self).entries@ == old(self).entries@.insert(d, value)
                &&& final(self).ctx.dots() == old(self).ctx.dots().insert(d)
                &&& final(self).ctx.clock@ == old(self).ctx.clock@.insert(replica.0, d.1)
                &&& final(self).ctx.dot_cloud@ == old(self).ctx.dot_cloud@
                &&& final(delta).entries@ == old(delta).entries@.insert(d, value)
                &&& final(delta).ctx.dots() == old(delta).ctx.dots().insert(d)
            }),
            final(self).wf(),
            final(delta).wf(),
            final(delta).ctx.is_compact(),
    {
        let dot = self.ctx.next_dot(replica);
        self.entries.insert((dot.0.0, dot.1), value.duplicate());
        delta.entries.insert((dot.0.0, dot.1), value);
        delta.ctx.add(dot);
        proof {
            assert(delta.ctx.dots() =~= old(delta).ctx.dots().insert(dot.key()));
        }
        delta.ctx.compact();
    }

    /// Drops every live entry whose value is the same as `value`; their dots go to
    /// the context of `delta`.
    pub fn remove(&mut self, value: &V, delta: &mut Self)
        requires
            old(self).wf(),
            old(delta).wf(),
        ensures
            final(self).entries@ == old(self).entries@.remove_keys(
                dots_of_value(old(self).entries@, *value),
            ),
            final(self).ctx == old(self).ctx,
            final(delta).entries@ == old(delta).entries@,
            final(delta).ctx.dots() == old(delta).ctx.dots().union(
                dots_of_value(old(self).entries@, *value),
            ),
            final(delta).ctx.is_compact(),
            final(self).wf(),
            final(delta).wf(),
    {
        let mut found: Vec<(u64, u64)> = Vec::new();
        let ghost mut seen: Set<(u64, u64)> = Set::empty();
        for (d, v) in it: self.entries.iter()
            invariant
                forall|i: int| 0 <= i < found.len() ==> #[trigger] dots_of_value(self.entries@, *value).contains(found[i]),
                forall|k: (u64, u64)|
                    seen.contains(k) && dots_of_value(self.entries@, *value).contains(k) ==> found@.contains(k),
                it.seq().len() == self.entries@.dom().len(),
                forall|i: int|
                    0 <= i < it.seq().len() ==> #[trigger] self.entries@.contains_key(*it.seq()[i].0)
                        && self.entries@[*it.seq()[i].0] == *it.seq()[i].1,
                forall|i: int| 0 <= i < it.index() ==> seen.contains(*it.seq()[i].0),
                forall|k: (u64, u64)| seen.contains(k) ==> self.entries@.contains_key(k),
                it.index() == it.seq().len() ==> self.entries@.dom().subset_of(seen),
        {
            assert(self.entries@.contains_key(*d) && self.entries@[*d] == *v) by {
                assert(*it.seq()[it.index() as int].0 == *d);
            }
            proof {
                seen = seen.insert(*d);
            }
            let ghost before = found@;
            if v.same_value(value) {
                found.push(*d);
                assert(found@[found.len() - 1] == *d);
            }
            assert forall|k: (u64, u64)| before.contains(k) implies found@.contains(k) by {
                let j = choose|j: int| 0 <= j < before.len() && before[j] == k;
                assert(found@[j] == k);
            }
            assert forall|k: (u64, u64)|
                it.index() + 1 == it.seq().len() && self.entries@.contains_key(k) implies seen.contains(k) by {
                assert(it.seq().contains((&k, &self.entries@[k])));
            }
        }
        let ghost gone = dots_of_value(self.entries@, *value);
        assert(forall|k: (u64, u64)| gone.contains(k) ==> self.ctx.dots().contains(k));
        let ghost old_entries = self.entries@;
        let ghost old_delta_dots = delta.ctx.dots();
        let mut i: usize = 0;
        while i < found.len()
            invariant
                0 <= i <= found.len(),
                forall|j: int| 0 <= j < found.len() ==> #[trigger] gone.contains(found[j]),
                forall|k: (u64, u64)| gone.contains(k) ==> found@.contains(k),
                self.entries@ == old_entries.remove_keys(found@.take(i as int).to_set()),
                delta.ctx.dots() == old_delta_dots.union(found@.take(i as int).to_set()),
                delta.ctx.clock@ == old(delta).ctx.clock@,
                delta.entries@ == old(delta).entries@,
                self.ctx == old(self).ctx,
                gone == dots_of_value(old(self).entries@, *value),
                forall|k: (u64, u64)| gone.contains(k) ==> k.1 >= 1,
                old_entries == old(self).entries@,
                old_delta_dots == old(delta).ctx.dots(),
            decreases found.len() - i,
        {
            let d = found[i];
            assert(gone.contains(d));
            assert(d.1 >= 1);
            self.entries.remove(&d);
            let ghost before = delta.ctx.dots();
            delta.ctx.add(Dot(ReplicaId(d.0), d.1));
            assert(delta.ctx.dots() =~= before.insert(d));
            proof {
                assert(found@.take(i as int + 1) == found@.take(i as int).push(d));
                found@.take(i as int).lemma_push_to_set_commute(d);
                assert(self.entries@ =~= old_entries.remove_keys(found@.take(i as int + 1).to_set()));
                assert(delta.ctx.dots() =~= old_delta_dots.union(found@.take(i as int + 1).to_set()));
            }
            i = i + 1;
        }
        assert(found@.take(found.len() as int) == found@);
        assert(found@.to_set() =~= gone);
        delta.ctx.compact();
    }

    /// Drops every live entry; their dots go to the context of `delta`, which is then
    /// compacted.
    pub fn remove_all(&mut self, delta: &mut Self)
        requires
            old(self).wf(),
            old(delta).wf(),
        ensures
            final(self).entries@ == Map::<(u64, u64), V>::empty(),
            final(self).ctx == old(self).ctx,
            final(delta).entries@ == old(delta).entries@,
            final(delta).ctx.dots() == old(delta).ctx.dots().union(old(self).entries@.dom()),
            final(delta).ctx.is_compact(),
            final(self).wf(),
            final(delta).wf(),
    {
        let ghost mut seen: Set<(u64, u64)> = Set::empty();
        for (d, v) in it: self.entries.iter()
            invariant
                delta.ctx.dots() == old(delta).ctx.dots().union(seen),
                delta.entries@ == old(delta).entries@,
                seen.subset_of(self.entries@.dom()),
                self.wf(),
                self == old(self),
                it.seq().len() == self.entries@.dom().len(),
                forall|i: int|
                    0 <= i < it.seq().len() ==> #[trigger] self.entries@.contains_key(*it.seq()[i].0)
                        && self.entries@[*it.seq()[i].0] == *it.seq()[i].1,
                forall|i: int| 0 <= i < it.index() ==> seen.contains(*it.seq()[i].0),
                it.index() == it.seq().len() ==> self.entries@.dom().subset_of(seen),
        {
            assert(self.entries@.contains_key(*d)) by {
                assert(*it.seq()[it.index() as int].0 == *d);
            }
            assert(self.ctx.dots().contains(*d));
            let ghost before = delta.ctx.dots();
            proof {
                seen = seen.insert(*d);
            }
            delta.ctx.add(Dot(ReplicaId(d.0), d.1));
            assert(delta.ctx.dots() =~= before.insert(*d));
            assert(delta.ctx.dots() =~= old(delta).ctx.dots().union(seen));
            assert forall|k: (u64, u64)|
                it.index() + 1 == it.seq().len() && self.entries@.contains_key(k) implies seen.contains(k) by {
                assert(it.seq().contains((&k, &self.entries@[k])));
            }
        }
        assert(seen =~= self.entries@.dom());
        self.entries = BTreeMap::new();
        delta.ctx.compact();
    }
}

/// Merging kernels is commutative, for kernels that never give one dot two values.
pub proof fn lemma_kernel_join_commutative<V>(a: KernelView<V>, b: KernelView<V>)
    requires
        kernel_wf(a),
        kernel_wf(b),
        agree(a.1, b.1),
    ensures
        kernel_join(a, b) == kernel_join(b, a),
{
    assert(a.0.union(b.0) =~= b.0.union(a.0));
    assert(merged_entries(a.1, a.0, b.1, b.0) =~= merged_entries(b.1, b.0, a.1, a.0));
}

/// A merge of well-formed kernels is well formed, and agrees with every kernel that
/// agrees with both sides.
pub proof fn lemma_kernel_join_wf<V>(a: KernelView<V>, b: KernelView<V>, c: KernelView<V>)
    requires
        kernel_wf(a),
        kernel_wf(b),
        agree(a.1, c.1),
        agree(b.1, c.1),
    ensures
        kernel_wf(kernel_join(a, b)),
        agree(kernel_join(a, b).1, c.1),
        agree(c.1, kernel_join(a, b).1),
{
}

/// Merging kernels is associative, for kernels that never give one dot two values.
pub proof fn lemma_kernel_join_associative<V>(
    a: KernelView<V>,
    b: KernelView<V>,
    c: KernelView<V>,
)
    requires
        kernel_wf(a),
        kernel_wf(b),
        kernel_wf(c),
        agree(a.1, b.1),
        agree(b.1, c.1),
        agree(a.1, c.1),
    ensures
        kernel_join(kernel_join(a, b), c) == kernel_join(a, kernel_join(b, c)),
{
    let l = kernel_join(kernel_join(a, b), c);
    let r = kernel_join(a, kernel_join(b, c));
    assert(l.0 =~= r.0);
    assert(l.1 =~= r.1);
}

/// Merging a kernel with itself changes nothing.
pub proof fn lemma_kernel_join_idempotent<V>(a: KernelView<V>)
    requires
        kernel_wf(a),
    ensures
        kernel_join(a, a) == a,
{
    assert(a.0.union(a.0) =~= a.0);
    assert(merged_entries(a.1, a.0, a.1, a.0) =~= a.1);
}

/// Merging dot contexts is commutative, associative and idempotent on the dots observed.
pub proof fn lemma_ctx_join_laws(a: DotCtx, b: DotCtx, c: DotCtx)
    ensures
        a.dots().union(b.dots()) == b.dots().union(a.dots()),
        a.dots().union(b.dots()).union(c.dots()) == a.dots().union(b.dots().union(c.dots())),
        a.dots().union(a.dots()) == a.dots(),
{
    assert(a.dots().union(b.dots()) =~= b.dots().union(a.dots()));
    assert(a.dots().union(b.dots()).union(c.dots()) =~= a.dots().union(b.dots().union(c.dots())));
    assert(a.dots().union(a.dots()) =~= a.dots());
}


/// Whether `r` is what merging kernels `a` and `b` gives, down to the context's
/// clock and cloud.
pub open spec fn kernel_merged<V: Value>(r: DotKernel<V>, a: DotKernel<V>, b: DotKernel<V>) -> bool {
    r.kview() == kernel_join(a.kview(), b.kview()) && ctx_merged(r.ctx, a.ctx, b.ctx)
}

/// Merging kernels with compacted contexts that never give one dot two values is
/// commutative, associative and idempotent on the live entries and on the context's
/// clock and cloud.
pub proof fn lemma_kernel_merge_structural<V: Value>(
    a: DotKernel<V>,
    b: DotKernel<V>,
    c: DotKernel<V>,
    ab: DotKernel<V>,
    ba: DotKernel<V>,
    ab_c: DotKernel<V>,
    bc: DotKernel<V>,
    a_bc: DotKernel<V>,
    aa: DotKernel<V>,
)
    requires
        a.wf(),
        b.wf(),
        c.wf(),
        a.ctx.is_compact(),
        b.ctx.is_compact(),
        c.ctx.is_compact(),
        agree(a.entries@, b.entries@),
        agree(b.entries@, c.entries@),
        agree(a.entries@, c.entries@),
        kernel_merged(ab, a, b),
        kernel_merged(ba, b, a),
        kernel_merged(ab_c, ab, c),
        kernel_merged(bc, b, c),
        kernel_merged(a_bc, a, bc),
        kernel_merged(aa, a, a),
    ensures
        ab.entries@ == ba.entries@ && ab.ctx.clock@ == ba.ctx.clock@ && ab.ctx.dot_cloud@ == ba.ctx.dot_cloud@,
        ab_c.entries@ == a_bc.entries@ && ab_c.ctx.clock@ == a_bc.ctx.clock@ && ab_c.ctx.dot_cloud@
            == a_bc.ctx.dot_cloud@,
        aa.entries@ == a.entries@ && aa.ctx.clock@ == a.ctx.clock@ && aa.ctx.dot_cloud@ == a.ctx.dot_cloud@,
{
    lemma_kernel_join_commutative(a.kview(), b.kview());
    lemma_kernel_join_associative(a.kview(), b.kview(), c.kview());
    lemma_kernel_join_idempotent(a.kview());
    lemma_ctx_merge_structural(a.ctx, b.ctx, c.ctx, ab.ctx, ba.ctx, ab_c.ctx, bc.ctx, a_bc.ctx, aa.ctx);
}

/// The stored form of a kernel: entries, clock map and cloud.
pub type KernelStruct<V> = (Map<(u64, u64), V>, Map<u64, u64>, Set<(u64, u64)>);

pub open spec fn kstruct<V>(k: DotKernel<V>) -> KernelStruct<V> {
    (k.entries@, k.ctx.clock@, k.ctx.dot_cloud@)
}

/// A merge depends on the stored form of its sides alone.
pub proof fn lemma_kernel_merged_congruent<V: Value>(
    r: DotKernel<V>,
    a: DotKernel<V>,
    b: DotKernel<V>,
    r2: DotKernel<V>,
    a2: DotKernel<V>,
    b2: DotKernel<V>,
)
    requires
        kernel_merged(r, a, b),
        kernel_merged(r2, a2, b2),
        kstruct(a) == kstruct(a2),
        kstruct(b) == kstruct(b2),
    ensures
        kstruct(r) == kstruct(r2),
{
    assert(a.ctx.dots() =~= a2.ctx.dots());
    assert(b.ctx.dots() =~= b2.ctx.dots());
    assert(r.ctx.dots() =~= r2.ctx.dots());
    lemma_compact_canonical(r.ctx, r2.ctx);
}

/// Kernel merge results are well formed and agree with what both sides agree with.
proof fn lemma_kernel_merged_wf<V: Value>(r: DotKernel<V>, a: DotKernel<V>, b: DotKernel<V>, c: DotKernel<V>)
    requires
        kernel_merged(r, a, b),
        a.wf(),
        b.wf(),
        agree(a.entries@, c.entries@),
        agree(b.entries@, c.entries@),
    ensures
        r.wf(),
        r.ctx.is_compact(),
        agree(r.entries@, c.entries@),
        agree(c.entries@, r.entries@),
{
    lemma_kernel_join_wf(a.kview(), b.kview(), c.kview());
}

/// Kernel merges commute, down to the stored form.
pub proof fn lemma_kernel_merged_commutative<V: Value>(x: DotKernel<V>, y: DotKernel<V>, r1: DotKernel<V>, r2: DotKernel<V>)
    requires
        x.wf(),
        y.wf(),
        agree(x.entries@, y.entries@),
        kernel_merged(r1, x, y),
        kernel_merged(r2, y, x),
    ensures
        kstruct(r1) == kstruct(r2),
{
    lemma_kernel_join_commutative(x.kview(), y.kview());
    lemma_ctx_join_laws(x.ctx, y.ctx, y.ctx);
    assert(r1.ctx.dots() =~= r2.ctx.dots());
    assert(r1.ctx.clock@.dom() =~= r2.ctx.clock@.dom());
    lemma_compact_canonical(r1.ctx, r2.ctx);
}

/// Kernel merges associate, down to the stored form.
pub proof fn lemma_kernel_merged_associative<V: Value>(
    x: DotKernel<V>,
    y: DotKernel<V>,
    z: DotKernel<V>,
    xy: DotKernel<V>,
    xy_z: DotKernel<V>,
    yz: DotKernel<V>,
    x_yz: DotKernel<V>,
)
    requires
        x.wf(),
        y.wf(),
        z.wf(),
        agree(x.entries@, y.entries@),
        agree(y.entries@, z.entries@),
        agree(x.entries@, z.entries@),
        kernel_merged(xy, x, y),
        kernel_merged(xy_z, xy, z),
        kernel_merged(yz, y, z),
        kernel_merged(x_yz, x, yz),
    ensures
        kstruct(xy_z) == kstruct(x_yz),
{
    lemma_kernel_join_associative(x.kview(), y.kview(), z.kview());
    lemma_ctx_join_laws(x.ctx, y.ctx, z.ctx);
    assert(xy_z.ctx.dots() =~= x_yz.ctx.dots());
    assert(xy_z.ctx.clock@.dom() =~= x_yz.ctx.clock@.dom());
    lemma_compact_canonical(xy_z.ctx, x_yz.ctx);
}

/// Merging a kernel with itself gives it back, down to the stored form.
pub proof fn lemma_kernel_merged_idempotent<V: Value>(x: DotKernel<V>, r: DotKernel<V>)
    requires
        x.wf(),
        x.ctx.is_compact(),
        kernel_merged(r, x, x),
    ensures
        kstruct(r) == kstruct(x),
{
    lemma_kernel_join_idempotent(x.kview());
    lemma_ctx_join_laws(x.ctx, x.ctx, x.ctx);
    assert(r.ctx.dots() =~= x.ctx.dots());
    assert(r.ctx.clock@.dom() =~= x.ctx.clock@.dom());
    lemma_compact_canonical(r.ctx, x.ctx);
}

/// A kernel together with its accumulated delta, if any.
pub type Parts<V> = (DotKernel<V>, Option<DotKernel<V>>);

pub open spec fn opt_kstruct<V>(o: Option<DotKernel<V>>) -> Option<KernelStruct<V>> {
    match o {
        Some(k) => Some(kstruct(k)),
        None => None,
    }
}

/// The stored form of a kernel and its delta.
pub open spec fn parts_struct<V>(p: Parts<V>) -> (KernelStruct<V>, Option<KernelStruct<V>>) {
    (kstruct(p.0), opt_kstruct(p.1))
}

/// Every context is compacted.
pub open spec fn parts_compact<V>(p: Parts<V>) -> bool {
    &&& p.0.ctx.is_compact()
    &&& p.1 matches Some(d) ==> d.ctx.is_compact()
}

pub open spec fn parts_wf<V: Value>(p: Parts<V>) -> bool {
    &&& p.0.wf()
    &&& p.1 matches Some(d) ==> d.wf()
}

/// Kernels never give one dot two values, nor do deltas.
pub open spec fn parts_agree<V>(a: Parts<V>, b: Parts<V>) -> bool {
    &&& agree(a.0.entries@, b.0.entries@)
    &&& opt_kagree(a.1, b.1)
}

/// Two optional kernels never give one dot two values.
pub open spec fn opt_kagree<V>(a: Option<DotKernel<V>>, b: Option<DotKernel<V>>) -> bool {
    match (a, b) {
        (Some(x), Some(y)) => agree(x.entries@, y.entries@),
        _ => true,
    }
}

/// Whether the optional delta `r` is the merge of `a` and `b`: merged when both are
/// there, a copy of the one that is there otherwise.
pub open spec fn opt_merged<V: Value>(r: Option<DotKernel<V>>, a: Option<DotKernel<V>>, b: Option<DotKernel<V>>) -> bool {
    match (a, b) {
        (Some(x), Some(y)) => r matches Some(z) && kernel_merged(z, x, y),
        (Some(x), None) => r matches Some(z) && kstruct(z) == kstruct(x),
        (None, Some(y)) => r matches Some(z) && kstruct(z) == kstruct(y),
        (None, None) => r is None,
    }
}

/// Whether `r` is what merging `a` and `b` gives: kernels merged, deltas merged.
pub open spec fn parts_merged<V: Value>(r: Parts<V>, a: Parts<V>, b: Parts<V>) -> bool {
    kernel_merged(r.0, a.0, b.0) && opt_merged(r.1, a.1, b.1)
}

/// Merging deltas is commutative, associative and idempotent, down to the stored form.
proof fn lemma_opt_merged_laws<V: Value>(
    a: Option<DotKernel<V>>,
    b: Option<DotKernel<V>>,
    c: Option<DotKernel<V>>,
    ab: Option<DotKernel<V>>,
    ba: Option<DotKernel<V>>,
    ab_c: Option<DotKernel<V>>,
    bc: Option<DotKernel<V>>,
    a_bc: Option<DotKernel<V>>,
    aa: Option<DotKernel<V>>,
)
    requires
        a matches Some(x) ==> x.wf() && x.ctx.is_compact(),
        b matches Some(x) ==> x.wf() && x.ctx.is_compact(),
        c matches Some(x) ==> x.wf() && x.ctx.is_compact(),
        opt_kagree(a, b),
        opt_kagree(b, c),
        opt_kagree(a, c),
        opt_merged(ab, a, b),
        opt_merged(ba, b, a),
        opt_merged(ab_c, ab, c),
        opt_merged(bc, b, c),
        opt_merged(a_bc, a, bc),
        opt_merged(aa, a, a),
    ensures
        opt_kstruct(ab) == opt_kstruct(ba),
        opt_kstruct(ab_c) == opt_kstruct(a_bc),
        opt_kstruct(aa) == opt_kstruct(a),
{
    match (a, b) {
        (Some(x), Some(y)) => lemma_kernel_merged_commutative(x, y, ab->Some_0, ba->Some_0),
        _ => {},
    }
    if let Some(x) = a {
        lemma_kernel_merged_idempotent(x, aa->Some_0);
    }
    match (a, b, c) {
        (Some(x), Some(y), Some(z)) => {
            lemma_kernel_merged_wf(ab->Some_0, x, y, z);
            lemma_kernel_merged_wf(bc->Some_0, y, z, x);
            lemma_kernel_merged_associative(x, y, z, ab->Some_0, ab_c->Some_0, bc->Some_0, a_bc->Some_0);
        },
        (Some(x), None, Some(z)) => {
            lemma_kernel_merged_congruent(ab_c->Some_0, ab->Some_0, z, a_bc->Some_0, x, bc->Some_0);
        },
        (Some(x), Some(y), None) => {
            lemma_kernel_merged_congruent(ab->Some_0, x, y, a_bc->Some_0, x, bc->Some_0);
        },
        (None, Some(y), Some(z)) => {
            lemma_kernel_merged_congruent(ab_c->Some_0, ab->Some_0, z, bc->Some_0, y, z);
        },
        _ => {},
    }
}

/// Merging kernels with their deltas, all contexts compacted and no dot given two
/// values, is commutative, associative and idempotent down to the stored form:
/// entries, clock maps and clouds of the kernel and of the delta.
pub proof fn lemma_parts_merge_structural<V: Value>(
    a: Parts<V>,
    b: Parts<V>,
    c: Parts<V>,
    ab: Parts<V>,
    ba: Parts<V>,
    ab_c: Parts<V>,
    bc: Parts<V>,
    a_bc: Parts<V>,
    aa: Parts<V>,
)
    requires
        parts_wf(a),
        parts_wf(b),
        parts_wf(c),
        parts_compact(a),
        parts_compact(b),
        parts_compact(c),
        parts_agree(a, b),
        parts_agree(b, c),
        parts_agree(a, c),
        parts_merged(ab, a, b),
        parts_merged(ba, b, a),
        parts_merged(ab_c, ab, c),
        parts_merged(bc, b, c),
        parts_merged(a_bc, a, bc),
        parts_merged(aa, a, a),
    ensures
        parts_struct(ab) == parts_struct(ba),
        parts_struct(ab_c) == parts_struct(a_bc),
        parts_struct(aa) == parts_struct(a),
{
    lemma_kernel_merged_commutative(a.0, b.0, ab.0, ba.0);
    lemma_kernel_merged_wf(ab.0, a.0, b.0, c.0);
    lemma_kernel_merged_wf(bc.0, b.0, c.0, a.0);
    lemma_kernel_merged_associative(a.0, b.0, c.0, ab.0, ab_c.0, bc.0, a_bc.0);
    lemma_kernel_merged_idempotent(a.0, aa.0);
    lemma_opt_merged_laws(a.1, b.1, c.1, ab.1, ba.1, ab_c.1, bc.1, a_bc.1, aa.1);
}

/// The view of an optional kernel.
pub open spec fn opt_kview<V: Value>(o: Option<DotKernel<V>>) -> Option<KernelView<V>> {
    match o {
        Some(k) => Some(k.kview()),
        None => None,
    }
}

/// Optional kernels (accumulated deltas) merge like kernels; a missing one is neutral.
pub open spec fn opt_join<V>(a: Option<KernelView<V>>, b: Option<KernelView<V>>) -> Option<
    KernelView<V>,
> {
    match (a, b) {
        (Some(x), Some(y)) => Some(kernel_join(x, y)),
        (Some(x), None) => Some(x),
        (None, Some(y)) => Some(y),
        (None, None) => None,
    }
}

pub open spec fn opt_wf<V>(a: Option<KernelView<V>>) -> bool {
    match a {
        Some(x) => kernel_wf(x),
        None => true,
    }
}

pub open spec fn opt_agree<V>(a: Option<KernelView<V>>, b: Option<KernelView<V>>) -> bool {
    match (a, b) {
        (Some(x), Some(y)) => agree(x.1, y.1),
        _ => true,
    }
}

/// Merging optional kernels is commutative, associative and idempotent, for kernels
/// that never give one dot two values.
pub proof fn lemma_opt_join_laws<V>(
    a: Option<KernelView<V>>,
    b: Option<KernelView<V>>,
    c: Option<KernelView<V>>,
)
    requires
        opt_wf(a),
        opt_wf(b),
        opt_wf(c),
        opt_agree(a, b),
        opt_agree(b, c),
        opt_agree(a, c),
    ensures
        opt_join(a, b) == opt_join(b, a),
        opt_join(opt_join(a, b), c) == opt_join(a, opt_join(b, c)),
        opt_join(a, a) == a,
        opt_wf(opt_join(a, b)),
{
    if let (Some(x), Some(y)) = (a, b) {
        lemma_kernel_join_commutative(x, y);
        lemma_kernel_join_wf(x, y, x);
    }
    if let Some(x) = a {
        lemma_kernel_join_idempotent(x);
    }
    match (a, b, c) {
        (Some(x), Some(y), Some(z)) => {
            lemma_kernel_join_associative(x, y, z);
        },
        _ => {},
    }
}

} // verus!
