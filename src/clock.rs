//! Clock maps: replica -> counter, with a missing replica counting as zero; their
//! pointwise maximum, partial order and sum.
use std::cmp::Ordering;
use std::collections::BTreeMap;
use vstd::prelude::*;

verus! {

broadcast use vstd::std_specs::btree::group_btree_axioms;

/// The counter that a clock map holds for a replica; a missing replica counts as zero.
pub open spec fn count_of(m: Map<u64, u64>, r: u64) -> nat {
    if m.contains_key(r) {
        m[r] as nat
    } else {
        0
    }
}

/// Whether the clock map implies the dot `(r, n)`: `n` is at most the counter of `r`.
pub open spec fn covers(m: Map<u64, u64>, d: (u64, u64)) -> bool {
    m.contains_key(d.0) && d.1 <= m[d.0]
}

/// The counter of `r`, zero when it is missing.
pub fn get_count(m: &BTreeMap<u64, u64>, r: u64) -> (c: u64)
    ensures
        c == count_of(m@, r),
{
    match m.get(&r) {
        Some(v) => *v,
        None => 0,
    }
}

/// Pointwise maximum of two clock maps, over the union of their replicas.
pub open spec fn max_clock(a: Map<u64, u64>, b: Map<u64, u64>) -> Map<u64, u64> {
    Map::new(
        |k: u64| a.contains_key(k) || b.contains_key(k),
        |k: u64|
            if count_of(a, k) >= count_of(b, k) {
                count_of(a, k) as u64
            } else {
                count_of(b, k) as u64
            },
    )
}

/// Pointwise maximum of two clock maps.
pub fn max_merge(a: &BTreeMap<u64, u64>, b: &BTreeMap<u64, u64>) -> (r: BTreeMap<u64, u64>)
    ensures
        r@ == max_clock(a@, b@),
{
    let mut clock = b.clone();
    let ghost mut done: Map<u64, u64> = Map::empty();
    for (k, v) in it: a.iter()
        invariant
            clock@ == max_clock(done, b@),
            done.submap_of(a@),
            it.seq().len() == a@.dom().len(),
            forall|i: int|
                0 <= i < it.seq().len() ==> #[trigger] a@.contains_key(*it.seq()[i].0) && a@[*it.seq()[i].0]
                    == *it.seq()[i].1,
            forall|i: int| 0 <= i < it.index() ==> done.contains_key(*it.seq()[i].0),
            it.index() == it.seq().len() ==> a@.dom().subset_of(done.dom()),
    {
        assert(a@.contains_key(*k) && a@[*k] == *v) by {
            assert(*it.seq()[it.index() as int].0 == *k);
        }
        proof {
            done = done.insert(*k, *v);
        }
        let cur = get_count(&clock, *k);
        if *v > cur {
            clock.insert(*k, *v);
        } else if !clock.contains_key(k) {
            clock.insert(*k, *v);
        }
        assert(clock@ =~= max_clock(done, b@));
        assert forall|k: u64|
            it.index() + 1 == it.seq().len() && a@.contains_key(k) implies done.contains_key(k) by {
            assert(it.seq().contains((&k, &a@[k])));
        }
    }
    assert(done =~= a@);
    clock
}

/// `a` is at or before `b` on every replica.
pub open spec fn clock_le(a: Map<u64, u64>, b: Map<u64, u64>) -> bool {
    forall|r: u64| count_of(a, r) <= count_of(b, r)
}

/// The partial order of clocks: equal, before, after, or concurrent (`None`).
pub open spec fn clock_cmp(a: Map<u64, u64>, b: Map<u64, u64>) -> Option<Ordering> {
    if clock_le(a, b) && clock_le(b, a) {
        Some(Ordering::Equal)
    } else if clock_le(a, b) {
        Some(Ordering::Less)
    } else if clock_le(b, a) {
        Some(Ordering::Greater)
    } else {
        None
    }
}

/// Looks for a replica of `keys_of` on which `a` is ahead of `b`.
fn ahead_somewhere(keys_of: &BTreeMap<u64, u64>, a: &BTreeMap<u64, u64>, b: &BTreeMap<u64, u64>) -> (r: bool)
    requires
        forall|k: u64| #[trigger] count_of(a@, k) > 0 ==> keys_of@.contains_key(k),
    ensures
        r == exists|k: u64| #[trigger] count_of(a@, k) > count_of(b@, k),
{
    let mut found = false;
    for (k, v) in it: keys_of.iter()
        invariant
            forall|k: u64| #[trigger] count_of(a@, k) > 0 ==> keys_of@.contains_key(k),
            found ==> exists|k: u64| #[trigger] count_of(a@, k) > count_of(b@, k),
            !found ==> forall|i: int| 0 <= i < it.index() ==> count_of(a@, *it.seq()[i].0) <= count_of(b@, *it.seq()[i].0),
            it.index() == it.seq().len() ==> forall|k: u64| #[trigger] keys_of@.contains_key(k) ==> exists|i: int| 0 <= i < it.seq().len() && *it.seq()[i].0 == k,
    {
        if get_count(a, *k) > get_count(b, *k) {
            found = true;
        }
        assert forall|x: u64|
            it.index() + 1 == it.seq().len() && #[trigger] keys_of@.contains_key(x) implies exists|i: int|
            0 <= i < it.seq().len() && *it.seq()[i].0 == x by {
            assert(it.seq().contains((&x, &keys_of@[x])));
            let j = choose|j: int| 0 <= j < it.seq().len() && it.seq()[j] == (&x, &keys_of@[x]);
            assert(*it.seq()[j].0 == x);
        }
    }
    found
}

/// Compares two clocks in one pass over the replicas of each.
pub fn compare_clocks(a: &BTreeMap<u64, u64>, b: &BTreeMap<u64, u64>) -> (r: Option<Ordering>)
    ensures
        r == clock_cmp(a@, b@),
{
    let a_ahead = ahead_somewhere(a, a, b);
    let b_ahead = ahead_somewhere(b, b, a);
    if a_ahead && b_ahead {
        None
    } else if a_ahead {
        Some(Ordering::Greater)
    } else if b_ahead {
        Some(Ordering::Less)
    } else {
        Some(Ordering::Equal)
    }
}

/// Sum of the counters.
pub open spec fn total(m: Map<u64, u64>) -> int
    decreases m.dom().len(),
    when m.dom().finite()
{
    if m.dom().len() == 0 {
        0
    } else {
        let k = m.dom().choose();
        m[k] + total(m.remove(k))
    }
}

/// The sum does not depend on which counter is taken first.
pub proof fn lemma_total_remove(m: Map<u64, u64>, k: u64)
    requires
        m.dom().finite(),
        m.contains_key(k),
    ensures
        total(m) == m[k] + total(m.remove(k)),
    decreases m.dom().len(),
{
    let c = m.dom().choose();
    assert(m.dom().len() > 0);
    if c != k {
        lemma_total_remove(m.remove(c), k);
        lemma_total_remove(m.remove(k), c);
        assert(m.remove(c).remove(k) =~= m.remove(k).remove(c));
    }
}

/// Sum of the counters, saturating at the largest `u64`.
pub fn sum_counts(m: &BTreeMap<u64, u64>) -> (r: u64)
    ensures
        r == if total(m@) > u64::MAX { u64::MAX as int } else { total(m@) },
{
    let mut acc: u64 = 0;
    let ghost mut done: Map<u64, u64> = Map::empty();
    for (k, v) in it: m.iter()
        invariant
            done.dom().finite(),
            done.submap_of(m@),
            acc == if total(done) > u64::MAX { u64::MAX as int } else { total(done) },
            total(done) >= 0,
            forall|i: int|
                0 <= i < it.seq().len() ==> #[trigger] m@.contains_key(*it.seq()[i].0)
                    && m@[*it.seq()[i].0] == *it.seq()[i].1,
            forall|i: int| 0 <= i < it.index() ==> done.contains_key(*it.seq()[i].0),
            forall|i: int| it.index() <= i < it.seq().len() ==> !done.contains_key(*it.seq()[i].0),
            it.seq().unref().no_duplicates(),
            it.index() == it.seq().len() ==> m@.dom().subset_of(done.dom()),
    {
        assert(m@.contains_key(*k) && m@[*k] == *v && !done.contains_key(*k)) by {
            assert(*it.seq()[it.index() as int].0 == *k);
        }
        proof {
            let nd = done.insert(*k, *v);
            lemma_total_remove(nd, *k);
            assert(nd.remove(*k) =~= done);
            assert forall|i: int| it.index() + 1 <= i < it.seq().len() implies !nd.contains_key(*it.seq()[i].0) by {
                assert(it.seq().unref()[i] != it.seq().unref()[it.index() as int]);
                if *it.seq()[i].0 == *k {
                    assert(m@[*k] == *it.seq()[i].1);
                }
            }
            done = nd;
        }
        acc = acc.saturating_add(*v);
        assert forall|x: u64|
            it.index() + 1 == it.seq().len() && #[trigger] m@.contains_key(x) implies done.contains_key(x) by {
            assert(it.seq().contains((&x, &m@[x])));
            let j = choose|j: int| 0 <= j < it.seq().len() && it.seq()[j] == (&x, &m@[x]);
            assert(*it.seq()[j].0 == x);
        }
    }
    assert(done =~= m@);
    acc
}

/// A clock is equal to itself.
pub proof fn lemma_clock_cmp_refl(a: Map<u64, u64>)
    ensures
        clock_cmp(a, a) == Some(Ordering::Equal),
{
}

} // verus!
