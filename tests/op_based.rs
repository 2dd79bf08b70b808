use crdt_lab::counter::Counter;
use crdt_lab::lseq::{self, LSeq, VPtr as SeqPtr};
use crdt_lab::lwwreg::LWWRegister;
use crdt_lab::mvregister::MVRegister;
use crdt_lab::orset::{self, ORSet};
use crdt_lab::replica::ReplicaId;
use crdt_lab::replicator::{connect, replicate, Crdt, InMemoryDb, Protocol, Replicator, VTime};
use crdt_lab::rga::{self, Rga, VPtr};
use std::collections::{BTreeSet, HashSet};

fn s(x: &str) -> String {
    x.to_string()
}

#[test]
fn commutativity() {
    let alice_id = ReplicaId(0);
    let bob_id = ReplicaId(1);
    let mut alice = Replicator::new(alice_id, Counter::new(), InMemoryDb::<Counter>::default());
    let mut bob = Replicator::new(bob_id, Counter::new(), InMemoryDb::<Counter>::default());

    let _ = alice.send(Protocol::Command(34));
    let _ = bob.send(Protocol::Command(35));

    replicate(&mut alice, &mut bob);
    replicate(&mut bob, &mut alice);

    let alice_value = alice.query();
    let bob_value = bob.query();

    assert_eq!(alice_value, 69);
    assert_eq!(alice_value, bob_value)
}

#[test]
fn lwwreg_test() {
    type Lww = LWWRegister<String>;

    let alice_id = ReplicaId(0);
    let bob_id = ReplicaId(1);
    let mut alice = Replicator::new(alice_id, Lww::new(alice_id), InMemoryDb::<Lww>::default());
    let mut bob = Replicator::new(bob_id, Lww::new(bob_id), InMemoryDb::<Lww>::default());

    let _ = alice.send(Protocol::Command(Some(s("nice"))));
    let _ = bob.send(Protocol::Command(Some(s("nah"))));

    replicate(&mut alice, &mut bob);
    replicate(&mut bob, &mut alice);

    let alice_value = alice.query();
    let bob_value = bob.query();

    assert_eq!(alice_value, Some(s("nice")));
    assert_eq!(alice_value, bob_value)
}

#[test]
fn mvreg_test() {
    type Reg = MVRegister<String>;

    let alice_id = ReplicaId(0);
    let bob_id = ReplicaId(1);
    let mut alice = Replicator::new(alice_id, Reg::new(), InMemoryDb::<Reg>::default());
    let mut bob = Replicator::new(bob_id, Reg::new(), InMemoryDb::<Reg>::default());

    let _ = alice.send(Protocol::Command(Some(s("nice"))));
    let _ = bob.send(Protocol::Command(Some(s("nah"))));

    replicate(&mut alice, &mut bob);
    replicate(&mut bob, &mut alice);

    let alice_value: BTreeSet<String> = alice.query().into_iter().collect();
    let bob_value: BTreeSet<String> = bob.query().into_iter().collect();

    assert_eq!(alice_value, BTreeSet::from_iter([s("nice"), s("nah")]));
    assert_eq!(alice_value, bob_value)
}

#[test]
fn orset_add() {
    type Set = ORSet<String>;

    let alice_id = ReplicaId(0);
    let bob_id = ReplicaId(1);
    let mut alice = Replicator::new(alice_id, Set::new(), InMemoryDb::<Set>::default());
    let mut bob = Replicator::new(bob_id, Set::new(), InMemoryDb::<Set>::default());

    let _ = alice.send(Protocol::Command(orset::Command::Add(s("nice"))));
    let _ = bob.send(Protocol::Command(orset::Command::Add(s("nah"))));

    replicate(&mut alice, &mut bob);
    replicate(&mut bob, &mut alice);

    let alice_value: HashSet<String> = alice.query().into_iter().collect();
    let bob_value: HashSet<String> = bob.query().into_iter().collect();

    assert_eq!(alice_value, HashSet::from_iter([s("nice"), s("nah")]));
    assert_eq!(alice_value, bob_value)
}

#[test]
fn orset_remove() {
    type Set = ORSet<String>;

    let alice_id = ReplicaId(0);
    let bob_id = ReplicaId(1);
    let mut alice = Replicator::new(alice_id, Set::new(), InMemoryDb::<Set>::default());
    let mut bob = Replicator::new(bob_id, Set::new(), InMemoryDb::<Set>::default());

    let _ = alice.send(Protocol::Command(orset::Command::Add(s("nice"))));
    let _ = bob.send(Protocol::Command(orset::Command::Add(s("nah"))));

    replicate(&mut alice, &mut bob);
    replicate(&mut bob, &mut alice);

    let _ = alice.send(Protocol::Command(orset::Command::Remove(s("nah"))));
    replicate(&mut alice, &mut bob);
    replicate(&mut bob, &mut alice);

    let alice_value: HashSet<String> = alice.query().into_iter().collect();
    let bob_value: HashSet<String> = bob.query().into_iter().collect();

    assert_eq!(alice_value, HashSet::from_iter([s("nice")]));
    assert_eq!(alice_value, bob_value)
}

#[test]
fn lseq_add() {
    type Seq = LSeq<String>;

    let alice_id = ReplicaId(0);
    let bob_id = ReplicaId(1);
    let mut alice = Replicator::new(alice_id, Seq::new(alice_id), InMemoryDb::<Seq>::default());
    let mut bob = Replicator::new(bob_id, Seq::new(bob_id), InMemoryDb::<Seq>::default());

    let _ = alice.send(Protocol::Command(lseq::Command::Insert(0, s("nice"))));
    let _ = bob.send(Protocol::Command(lseq::Command::Insert(0, s("nah"))));

    replicate(&mut alice, &mut bob);
    replicate(&mut bob, &mut alice);

    let alice_value = alice.query();
    let bob_value = bob.query();

    assert_eq!(alice_value, vec![s("nice"), s("nah")]);
    assert_eq!(alice_value, bob_value)
}

#[test]
fn lseq_remove() {
    type Seq = LSeq<String>;

    let alice_id = ReplicaId(0);
    let bob_id = ReplicaId(1);
    let mut alice = Replicator::new(alice_id, Seq::new(alice_id), InMemoryDb::<Seq>::default());
    let mut bob = Replicator::new(bob_id, Seq::new(bob_id), InMemoryDb::<Seq>::default());

    let _ = alice.send(Protocol::Command(lseq::Command::Insert(0, s("nice"))));
    let _ = bob.send(Protocol::Command(lseq::Command::Insert(0, s("nah"))));

    replicate(&mut alice, &mut bob);
    replicate(&mut bob, &mut alice);

    let _ = alice.send(Protocol::Command(lseq::Command::RemoveAt(0)));
    let _ = bob.send(Protocol::Command(lseq::Command::RemoveAt(0)));
    replicate(&mut alice, &mut bob);
    replicate(&mut bob, &mut alice);

    let alice_value = alice.query();
    let bob_value = bob.query();

    assert_eq!(alice_value, vec![s("nah")]);
    assert_eq!(alice_value, bob_value)
}

#[test]
fn vptr_structural_comparison() {
    let a = VPtr(0, ReplicaId(0));
    let b = VPtr(0, ReplicaId(1));

    assert!(a < b)
}

#[test]
fn rga_add() {
    type Arr = Rga<String>;

    let alice_id = ReplicaId(0);
    let bob_id = ReplicaId(1);
    let mut alice = Replicator::new(alice_id, Arr::new(alice_id), InMemoryDb::<Arr>::default());
    let mut bob = Replicator::new(bob_id, Arr::new(bob_id), InMemoryDb::<Arr>::default());

    let _ = alice.send(Protocol::Command(rga::Command::Insert(0, s("nice"))));
    let _ = bob.send(Protocol::Command(rga::Command::Insert(0, s("nah"))));

    replicate(&mut alice, &mut bob);
    replicate(&mut bob, &mut alice);

    let alice_value = alice.query();
    let bob_value = bob.query();

    assert_eq!(alice_value, vec![s("nah"), s("nice")]);
    assert_eq!(alice_value, bob_value)
}

#[test]
fn rga_remove() {
    type Arr = Rga<String>;

    let alice_id = ReplicaId(0);
    let bob_id = ReplicaId(1);
    let mut alice = Replicator::new(alice_id, Arr::new(alice_id), InMemoryDb::<Arr>::default());
    let mut bob = Replicator::new(bob_id, Arr::new(bob_id), InMemoryDb::<Arr>::default());

    let _ = alice.send(Protocol::Command(rga::Command::Insert(0, s("nice"))));
    let _ = bob.send(Protocol::Command(rga::Command::Insert(0, s("nah"))));

    replicate(&mut alice, &mut bob);
    replicate(&mut bob, &mut alice);

    let _ = alice.send(Protocol::Command(rga::Command::RemoveAt(0)));
    let _ = bob.send(Protocol::Command(rga::Command::RemoveAt(0)));
    replicate(&mut alice, &mut bob);
    replicate(&mut bob, &mut alice);

    let alice_value = alice.query();
    let bob_value = bob.query();

    assert_eq!(alice_value, vec![s("nice")]);
    assert_eq!(alice_value, bob_value)
}

#[test]
fn connect_then_replicate_converges() {
    let mut a = Replicator::new(ReplicaId(0), Counter::new(), InMemoryDb::<Counter>::default());
    let mut b = Replicator::new(ReplicaId(1), Counter::new(), InMemoryDb::<Counter>::default());
    let _ = a.send(Protocol::Command(5));
    let _ = b.send(Protocol::Command(-2));
    let _ = b.send(Protocol::Command(10));
    connect(&mut a, &mut b);
    replicate(&mut a, &mut b);
    replicate(&mut b, &mut a);
    assert_eq!(a.query(), 13);
    assert_eq!(b.query(), 13);
    // pulling again brings nothing new
    replicate(&mut a, &mut b);
    assert_eq!(a.query(), 13);
}

#[test]
fn local_sequence_is_dense_and_increasing() {
    let mut a = Replicator::new(ReplicaId(0), Counter::new(), InMemoryDb::<Counter>::default());
    let mut b = Replicator::new(ReplicaId(1), Counter::new(), InMemoryDb::<Counter>::default());
    let _ = a.send(Protocol::Command(1));
    let _ = b.send(Protocol::Command(2));
    let _ = b.send(Protocol::Command(3));
    replicate(&mut a, &mut b);
    let seqs: Vec<u64> = a.store.events.iter().map(|e| e.local_seq).collect();
    assert_eq!(seqs, vec![1, 2, 3]);
    assert_eq!(a.state.seq, 3);
    assert_eq!(a.state.observed.get(&1), Some(&2));
}

#[test]
fn replay_window_and_filter() {
    let mut a = Replicator::new(ReplicaId(0), Counter::new(), InMemoryDb::<Counter>::default());
    for _ in 0..5 {
        let _ = a.send(Protocol::Command(1));
    }
    let r = a.replay(ReplicaId(0), VTime::new(), 2, 2);
    assert_eq!(r.to_seq_nr, 3);
    assert_eq!(r.events.iter().map(|e| e.local_seq).collect::<Vec<_>>(), vec![2, 3]);
    let none = a.replay(ReplicaId(0), VTime::new(), 9, 2);
    assert_eq!(none.to_seq_nr, 0);
    assert!(none.events.is_empty());
    let mut filter = VTime::new();
    filter.increment(ReplicaId(0));
    filter.increment(ReplicaId(0));
    let f = a.replay(ReplicaId(0), filter, 1, 100);
    assert_eq!(f.to_seq_nr, 5);
    assert_eq!(f.events.len(), 3);
}

#[test]
fn counter_saturates() {
    let mut c = Counter::new();
    c.apply(i64::MAX);
    c.apply(5);
    assert_eq!(c.query(), i64::MAX);
    c.apply(i64::MIN);
    assert_eq!(c.query(), -1);
}

#[test]
fn lww_ignores_older_and_breaks_ties_by_id() {
    let mut r = LWWRegister::<u64>::new(ReplicaId(1));
    let mut t1 = VTime::new();
    t1.increment(ReplicaId(0));
    r.apply(ReplicaId(0), t1.duplicate(), Some(1));
    assert_eq!(r.query(), Some(1));
    let mut t2 = VTime::new();
    t2.increment(ReplicaId(2));
    r.apply(ReplicaId(2), t2, Some(2));
    assert_eq!(r.query(), Some(1));
    let mut t3 = t1.duplicate();
    t3.increment(ReplicaId(5));
    t3.increment(ReplicaId(2));
    r.apply(ReplicaId(5), t3, Some(3));
    assert_eq!(r.query(), Some(3));
}

#[test]
fn lseq_generates_between_neighbours() {
    let mut acc = Vec::new();
    SeqPtr::generate_seq(&mut acc, &[1], &[2]);
    assert_eq!(acc, vec![1, 1]);
    let mut acc = Vec::new();
    SeqPtr::generate_seq(&mut acc, &[], &[]);
    assert_eq!(acc, vec![1]);
    let mut acc = Vec::new();
    SeqPtr::generate_seq(&mut acc, &[3], &[9]);
    assert_eq!(acc, vec![4]);
    let a = SeqPtr { sequence: vec![1], id: ReplicaId(5) };
    let b = SeqPtr { sequence: vec![1, 1], id: ReplicaId(0) };
    assert_eq!(SeqPtr::compare(&a, &b), std::cmp::Ordering::Less);
    assert_eq!(SeqPtr::compare(&b, &a), std::cmp::Ordering::Greater);
}

#[test]
fn rga_index_skips_tombstones() {
    let mut r = Rga::<u64>::new(ReplicaId(0));
    r.apply_inserted(VPtr(0, ReplicaId(u64::MAX)), VPtr(1, ReplicaId(0)), 10);
    r.apply_inserted(VPtr(1, ReplicaId(0)), VPtr(2, ReplicaId(0)), 20);
    assert_eq!(r.query_values(), vec![10, 20]);
    r.apply_removed(VPtr(1, ReplicaId(0)));
    assert_eq!(r.query_values(), vec![20]);
    assert_eq!(r.index_including_tombstones(0), 1);
    assert_eq!(r.index_including_tombstones(1), 3);
    assert_eq!(r.index_of_vptr(VPtr(2, ReplicaId(0))), Some(2));
    assert_eq!(r.index_of_vptr(VPtr(9, ReplicaId(0))), None);
}

#[test]
fn observed_never_decreases() {
    let mut a = Replicator::new(ReplicaId(0), Counter::new(), InMemoryDb::<Counter>::default());
    let mut b = Replicator::new(ReplicaId(1), Counter::new(), InMemoryDb::<Counter>::default());
    let _ = b.send(Protocol::Command(1));
    let _ = b.send(Protocol::Command(1));
    replicate(&mut a, &mut b);
    let seen = *a.state.observed.get(&1).unwrap();
    assert_eq!(seen, 2);
    // an empty batch claiming less progress leaves the record alone
    let _ = a.send(Protocol::Replicated(crdt_lab::replicator::Replicated { from: ReplicaId(1), to_seq_nr: 1, events: vec![] }));
    assert_eq!(*a.state.observed.get(&1).unwrap(), 2);
    let _ = a.send(Protocol::Replicated(crdt_lab::replicator::Replicated { from: ReplicaId(1), to_seq_nr: 7, events: vec![] }));
    assert_eq!(*a.state.observed.get(&1).unwrap(), 7);
    assert!(a.store.state.is_some());
}

#[test]
fn connect_asks_after_observed() {
    let mut a = Replicator::new(ReplicaId(0), Counter::new(), InMemoryDb::<Counter>::default());
    match a.send(Protocol::Connect(crdt_lab::replicator::Connect { replica_id: ReplicaId(4) })) {
        Protocol::Replicate(q) => {
            assert_eq!(q.seq_nr, 1);
            assert_eq!(q.max_count, 100);
            assert_eq!(q.reply_to, ReplicaId(0));
        }
        _ => panic!("expected a pull request"),
    }
}

#[test]
fn restart_replays_the_log() {
    let mut a = Replicator::new(ReplicaId(0), Counter::new(), InMemoryDb::<Counter>::default());
    let _ = a.send(Protocol::Command(4));
    let _ = a.send(Protocol::Command(6));
    let store = a.store;
    let b = Replicator::new(ReplicaId(0), Counter::new(), store);
    assert_eq!(b.query(), 10);
    assert_eq!(b.state.seq, 2);
}

#[test]
fn orset_same_add_applied_twice_is_kept_once() {
    let mut set = ORSet::<u64>::new();
    let mut t = VTime::new();
    t.increment(ReplicaId(3));
    set.apply_added(9, t.duplicate());
    set.apply_added(9, t.duplicate());
    assert_eq!(set.values.len(), 1);
    let mut t2 = t.duplicate();
    t2.increment(ReplicaId(3));
    set.apply_added(9, t2);
    assert_eq!(set.values.len(), 2);
    assert_eq!(set.query(), vec![9]);
}
