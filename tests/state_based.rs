use crdt_lab::aworset::AWORSet;
use crdt_lab::awormap::AWORMap;
use crdt_lab::dot::{Dot, DotCtx, DotKernel};
use crdt_lab::gcounter::{GCounter, PNCounter};
use crdt_lab::list::List;
use crdt_lab::mvreg::MVReg;
use crdt_lab::replica::{ReplicaGenerator, ReplicaId};
use crdt_lab::state::{GrowCounter, VectorClock};
use std::collections::{BTreeMap, BTreeSet};

#[test]
fn aworset_basic() {
    let mut gen = ReplicaGenerator::new();
    let a_id = gen.gen();
    let _b_id = gen.gen();
    let mut a = AWORSet::<String>::default();
    let mut b = AWORSet::<String>::default();

    a.add(a_id, "noice".into());
    let (a, a_deltas) = a.split_expect_deltas();
    b.merge_delta(a_deltas);
    let (b, _) = b.split();

    assert_eq!(a, b)
}

#[test]
fn mvreg_basic() {
    let mut gen = ReplicaGenerator::new();
    let a_id = gen.gen();
    let _b_id = gen.gen();
    let mut a = MVReg::<String>::default();
    let mut b = MVReg::<String>::default();

    a.set(a_id, "noice".to_string());
    let (a, a_deltas) = a.split_expect_deltas();
    b.merge_delta(a_deltas);
    let (b, _) = b.split();

    assert_eq!(a, b)
}

#[test]
fn works() {
    let mut gen = ReplicaGenerator::new();
    let a_id = gen.gen();
    let b_id = gen.gen();

    let mut a = AWORMap::<String, String>::new();
    let mut b = AWORMap::<String, String>::new();

    a.insert(a_id, "fruit".into(), "apple".into());
    b.insert(b_id, "fruit".into(), "orange".into());
    let (mut a, a_deltas) = a.split_expect_deltas();
    let (mut b, b_deltas) = b.split_expect_deltas();

    a.merge_delta(b_deltas);
    b.merge_delta(a_deltas);

    println!("A: {:#?}\n\nB: {:#?}", a.values_owned(), b.values_owned());
    assert_eq!(a.values_owned(), b.values_owned());
}

#[test]
fn cmp_eq() {
    let a = VectorClock::new(GrowCounter::from_iter(vec![(0.into(), 0), (1.into(), 1), (2.into(), 420)]));
    let b = VectorClock::new(GrowCounter::from_iter(vec![(0.into(), 0), (1.into(), 1), (2.into(), 420)]));

    assert!(b == a);
}

#[test]
fn cmp_concurrent() {
    let a = VectorClock::new(GrowCounter::from_iter(vec![(0.into(), 55), (1.into(), 1), (2.into(), 420)]));
    let b = VectorClock::new(GrowCounter::from_iter(vec![(0.into(), 0), (1.into(), 69), (2.into(), 420)]));

    assert!(b != a);
    assert_eq!(a.partial_cmp(&b), None)
}

#[test]
fn cmp_less() {
    let a = VectorClock::new(GrowCounter::from_iter(vec![(0.into(), 0), (1.into(), 1), (2.into(), 420)]));
    let b = VectorClock::new(GrowCounter::from_iter(vec![(0.into(), 55), (1.into(), 69), (2.into(), 420)]));

    assert!(a < b);
    assert!(b > a);
    assert!(!(b < a));
}

#[test]
fn list_basic() {
    let mut gen = ReplicaGenerator::new();
    let a_id = gen.gen();
    let b_id = gen.gen();
    let mut a: List<String> = List::default();

    a.push(a_id, "apple".to_string());
    a.push(a_id, "orange".to_string());
    a.push(a_id, "lime".to_string());

    let mut b = a.duplicate();
    let lime = b.pop(b_id);
    assert_eq!(lime, Some("lime".to_string()));

    let c = a.merge(&b);
    assert_eq!(
        c.values,
        vec![(Dot(a_id, 1), "apple".to_string()), (Dot(a_id, 2), "orange".to_string())]
    );
}

#[test]
fn basic2() {
    let mut gen = ReplicaGenerator::new();
    let a_id = gen.gen();
    let b_id = gen.gen();
    let mut a: List<String> = List::default();

    a.push(a_id, "apple".to_string());
    a.push(a_id, "orange".to_string());
    a.push(a_id, "lime".to_string());

    let mut b = a.duplicate();
    let lime = b.pop(b_id);
    assert_eq!(lime, Some("lime".to_string()));
    a.push(a_id, "strawberry".to_string());

    let c = a.merge(&b);
    assert_eq!(
        c.values,
        vec![
            (Dot(a_id, 1), "apple".to_string()),
            (Dot(a_id, 2), "orange".to_string()),
            (Dot(a_id, 4), "strawberry".to_string())
        ]
    );
}

#[test]
fn gcounter_merge_sums_replicas() {
    let mut a = GCounter::new();
    let mut b = GCounter::new();
    a.increment(ReplicaId(1));
    b.increment(ReplicaId(2));
    b.increment(ReplicaId(2));
    assert_eq!(a.merge(&b).value(), 3);
    assert_eq!(b.merge(&a).value(), 3);
    let ab = a.merge(&b);
    assert_eq!(ab.merge(&ab).value(), 3);
}

#[test]
fn gcounter_delta_and_split() {
    let mut a = GCounter::new();
    a.increment(ReplicaId(7));
    a.increment(ReplicaId(7));
    let (plain, delta) = a.split_expect();
    assert!(plain.deltas().is_none());
    assert_eq!(delta.value(), 2);
    let other = GCounter::new();
    assert_eq!(other.merge_deltas(&delta).value(), 2);
}

#[test]
fn gcounter_from_map_clamps_zero() {
    let mut m = BTreeMap::new();
    m.insert(3u64, 0u8);
    m.insert(4u64, 5u8);
    let c = GCounter::from_u64_map(m);
    assert_eq!(c.value(), 6);
}

#[test]
fn pncounter_value_and_merge() {
    let mut a = PNCounter::default();
    a.increment(ReplicaId(1));
    a.increment(ReplicaId(1));
    a.decrement(ReplicaId(1));
    let mut b = PNCounter::default();
    b.decrement(ReplicaId(2));
    assert_eq!(a.value(), 1);
    assert_eq!(a.merge(&b).value(), 0);
    assert_eq!(b.merge(&a).value(), 0);
    let (_, deltas) = a.split();
    let d = deltas.expect("deltas");
    assert_eq!(d.value(), 1);
}

#[test]
fn state_pncounter() {
    let mut a = crdt_lab::state::PNCounter::new();
    a.increment(ReplicaId(0));
    a.increment(ReplicaId(0));
    a.decrement(ReplicaId(1));
    assert_eq!(a.value(), 1);
    let mut b = crdt_lab::state::PNCounter::new();
    b.increment(ReplicaId(0));
    assert_eq!(a.merge(&b).value(), 1);
}

#[test]
fn grow_counter_increment_and_merge() {
    let mut a = GrowCounter::new();
    assert_eq!(a.increment(ReplicaId(4)), 1);
    assert_eq!(a.increment(ReplicaId(4)), 2);
    let b = GrowCounter::from_iter(vec![(ReplicaId(4), 1), (ReplicaId(5), 10)]);
    assert_eq!(a.merge(&b).value(), 12);
}

#[test]
fn grow_counter_value_saturates() {
    let b = GrowCounter::from_iter(vec![(ReplicaId(1), u64::MAX), (ReplicaId(2), 1)]);
    assert_eq!(b.value(), u64::MAX);
}

#[test]
fn aworset_add_wins_over_concurrent_remove() {
    let r1 = ReplicaId(1);
    let r2 = ReplicaId(2);
    let mut base = AWORSet::<String>::default();
    base.add(r2, "x".to_string());
    let (base, _) = base.split();
    let mut a = base.clone();
    let mut b = base.clone();
    a.add(r1, "x".to_string());
    b.remove(&"x".to_string());
    assert!(b.value().is_empty());
    let m = a.merge(&b);
    assert_eq!(m.value(), vec!["x".to_string()]);
    let m2 = b.merge(&a);
    assert_eq!(m2.value(), vec!["x".to_string()]);
}

#[test]
fn aworset_remove_observed() {
    let mut a = AWORSet::<u64>::default();
    a.add(ReplicaId(1), 5);
    a.add(ReplicaId(1), 6);
    assert_eq!(a.len(), 2);
    let b = a.clone();
    a.remove(&5);
    assert_eq!(a.value(), vec![6]);
    assert_eq!(a.merge(&b).value(), vec![6]);
}

#[test]
fn aworset_merge_laws_on_values() {
    let mut a = AWORSet::<u64>::default();
    let mut b = AWORSet::<u64>::default();
    let mut c = AWORSet::<u64>::default();
    a.add(ReplicaId(1), 1);
    b.add(ReplicaId(2), 2);
    c.add(ReplicaId(3), 3);
    c.remove(&3);
    assert_eq!(a.merge(&b), b.merge(&a));
    assert_eq!(a.merge(&b).merge(&c), a.merge(&b.merge(&c)));
    assert_eq!(a.merge(&a), a);
}

#[test]
fn awormap_concurrent_put_higher_replica_wins() {
    let mut a = AWORMap::<String, String>::new();
    let mut b = AWORMap::<String, String>::new();
    a.insert(ReplicaId(1), "k".to_string(), "v1".to_string());
    b.insert(ReplicaId(2), "k".to_string(), "v2".to_string());
    let m = a.merge(&b);
    assert_eq!(m.values_owned(), vec![("k".to_string(), "v2".to_string())]);
    let m2 = b.merge(&a);
    assert_eq!(m2.values_owned(), vec![("k".to_string(), "v2".to_string())]);
}

#[test]
fn awormap_remove_key() {
    let mut a = AWORMap::<String, String>::new();
    a.insert(ReplicaId(1), "k".to_string(), "v".to_string());
    a.insert(ReplicaId(1), "j".to_string(), "w".to_string());
    a.remove(ReplicaId(1), "k".to_string());
    assert_eq!(a.values_owned(), vec![("j".to_string(), "w".to_string())]);
}

#[test]
fn mvreg_keeps_concurrent_writes() {
    let mut a = MVReg::<u64>::new();
    let mut b = MVReg::<u64>::new();
    a.set(ReplicaId(1), 10);
    b.set(ReplicaId(2), 20);
    let m = a.merge(&b);
    let vals: BTreeSet<u64> = m.value().into_iter().collect();
    assert_eq!(vals, BTreeSet::from_iter([10, 20]));
    let mut m = m;
    m.set(ReplicaId(1), 30);
    assert_eq!(m.value(), vec![30]);
}

#[test]
fn dot_ctx_compact_promotes_and_drops() {
    let mut ctx = DotCtx::new();
    ctx.clock.0.insert(1, 2);
    ctx.add(Dot(ReplicaId(1), 3));
    ctx.add(Dot(ReplicaId(1), 5));
    ctx.add(Dot(ReplicaId(1), 1));
    ctx.add(Dot(ReplicaId(2), 1));
    ctx.compact();
    assert_eq!(ctx.clock.0.get(&1), Some(&3));
    assert_eq!(ctx.clock.0.get(&2), Some(&1));
    assert_eq!(ctx.dot_cloud.iter().copied().collect::<Vec<_>>(), vec![(1, 5)]);
    assert!(ctx.contains(Dot(ReplicaId(1), 2)));
    assert!(ctx.contains(Dot(ReplicaId(1), 5)));
    assert!(!ctx.contains(Dot(ReplicaId(1), 4)));
}

#[test]
fn dot_ctx_next_dot_and_merge() {
    let mut a = DotCtx::new();
    let d = a.next_dot(ReplicaId(9));
    assert_eq!(d, Dot(ReplicaId(9), 1));
    assert_eq!(a.next_dot(ReplicaId(9)), Dot(ReplicaId(9), 2));
    let mut b = DotCtx::new();
    b.add(Dot(ReplicaId(9), 3));
    b.add(Dot(ReplicaId(8), 2));
    let ab = a.merge(&b);
    let ba = b.merge(&a);
    assert_eq!(ab, ba);
    assert_eq!(ab.merge(&ab), ab);
    assert!(ab.contains(Dot(ReplicaId(9), 3)));
    assert!(ab.contains(Dot(ReplicaId(8), 2)));
    assert!(!ab.contains(Dot(ReplicaId(8), 1)));
}

#[test]
fn dot_kernel_merge_drops_observed_removals() {
    let mut a = DotKernel::<u64>::new();
    let mut delta = DotKernel::<u64>::new();
    a.add(ReplicaId(1), 7, &mut delta);
    let mut b = a.clone();
    let mut bd = DotKernel::<u64>::new();
    b.remove(&7, &mut bd);
    assert!(b.values().is_empty());
    assert!(a.merge(&b).values().is_empty());
    assert!(b.merge(&a).values().is_empty());
    let mut all = DotKernel::<u64>::new();
    let mut c = a.clone();
    c.remove_all(&mut all);
    assert!(c.values().is_empty());
    assert!(all.ctx.contains(Dot(ReplicaId(1), 1)));
}

#[test]
fn dot_kernel_merge_laws_on_values() {
    let mut a = DotKernel::<u64>::new();
    let mut b = DotKernel::<u64>::new();
    let mut c = DotKernel::<u64>::new();
    let mut da = DotKernel::<u64>::new();
    let mut db = DotKernel::<u64>::new();
    let mut dc = DotKernel::<u64>::new();
    a.add(ReplicaId(1), 1, &mut da);
    a.add(ReplicaId(1), 2, &mut da);
    b.add(ReplicaId(2), 3, &mut db);
    c.add(ReplicaId(3), 4, &mut dc);
    let mut shared = a.merge(&b);
    let mut ds = DotKernel::<u64>::new();
    shared.remove(&1, &mut ds);
    assert_eq!(a.merge(&shared), shared.merge(&a));
    assert_eq!(a.merge(&b).merge(&c), a.merge(&b.merge(&c)));
    assert_eq!(a.merge(&a), a);
    let vals: BTreeSet<u64> = a.merge(&shared).values().into_iter().collect();
    assert_eq!(vals, BTreeSet::from_iter([2, 3]));
}

#[test]
fn counter_merge_laws_on_values() {
    let mut a = PNCounter::default();
    let mut b = PNCounter::default();
    let mut c = PNCounter::default();
    a.increment(ReplicaId(1));
    b.decrement(ReplicaId(2));
    c.increment(ReplicaId(2));
    c.increment(ReplicaId(1));
    assert_eq!(a.merge(&b), b.merge(&a));
    assert_eq!(a.merge(&b).merge(&c), a.merge(&b.merge(&c)));
    assert_eq!(a.merge(&a), a);
    assert_eq!(a.merge(&b).merge(&c).value(), 1);
}

#[test]
fn mvreg_merge_laws_on_values() {
    let mut a = MVReg::<u64>::new();
    let mut b = MVReg::<u64>::new();
    let mut c = MVReg::<u64>::new();
    a.set(ReplicaId(1), 1);
    b.set(ReplicaId(2), 2);
    c.set(ReplicaId(3), 3);
    assert_eq!(a.merge(&b), b.merge(&a));
    assert_eq!(a.merge(&b).merge(&c), a.merge(&b.merge(&c)));
    assert_eq!(a.merge(&a), a);
}

#[test]
fn awormap_merge_laws_on_values() {
    let mut a = AWORMap::<String, u64>::new();
    let mut b = AWORMap::<String, u64>::new();
    let mut c = AWORMap::<String, u64>::new();
    a.insert(ReplicaId(1), "x".to_string(), 1);
    b.insert(ReplicaId(2), "x".to_string(), 2);
    c.insert(ReplicaId(3), "y".to_string(), 3);
    let ab = a.merge(&b).values_owned();
    let ba = b.merge(&a).values_owned();
    assert_eq!(ab, ba);
    let ab_c = a.merge(&b).merge(&c).values_owned();
    let a_bc = a.merge(&b.merge(&c)).values_owned();
    assert_eq!(ab_c, a_bc);
    assert_eq!(a.merge(&a).values_owned(), a.values_owned());
    assert_eq!(ab_c, vec![("x".to_string(), 2), ("y".to_string(), 3)]);
}

#[test]
fn dot_ctx_merge_laws_structural() {
    let mut a = DotCtx::new();
    a.next_dot(ReplicaId(1));
    a.add(Dot(ReplicaId(1), 4));
    a.compact();
    let mut b = DotCtx::new();
    b.add(Dot(ReplicaId(1), 2));
    b.add(Dot(ReplicaId(2), 1));
    b.compact();
    let mut c = DotCtx::new();
    c.add(Dot(ReplicaId(1), 3));
    c.compact();
    assert_eq!(a.merge(&b), b.merge(&a));
    assert_eq!(a.merge(&b).merge(&c), a.merge(&b.merge(&c)));
    assert_eq!(a.merge(&a), a);
    let all = a.merge(&b).merge(&c);
    assert_eq!(all.clock.0.get(&1), Some(&4));
    assert!(all.dot_cloud.is_empty());
}
