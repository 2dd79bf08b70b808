//! Operation-based replication: events tagged with version vectors, an in-memory
//! event store, and the replicator state machine that applies local commands and
//! pulls remote events.
use std::cmp::Ordering;
use std::collections::BTreeMap;
use vstd::prelude::*;

use crate::clock::{clock_cmp, clock_le, compare_clocks, count_of, get_count, max_clock, max_merge};
use crate::replica::ReplicaId;

verus! {

broadcast use vstd::std_specs::btree::group_btree_axioms;

/// How many events one pull asks for.
pub const BATCH: u64 = 100;

/// Logical time: a version vector.
#[derive(Clone, Debug)]
pub struct VTime {
    pub map: BTreeMap<u64, u64>,
}

impl View for VTime {
    type V = Map<u64, u64>;

    open spec fn view(&self) -> Map<u64, u64> {
        self.map@
    }
}

impl VTime {
    pub fn new() -> (r: Self)
        ensures
            r@ == Map::<u64, u64>::empty(),
    {
        VTime { map: BTreeMap::new() }
    }

    pub fn duplicate(&self) -> (r: Self)
        ensures
            r@ == self@,
    {
        VTime { map: self.map.clone() }
    }

    /// Joins `other` into this time: the pointwise maximum.
    pub fn merge(&mut self, other: &Self)
        ensures
            final(self)@ == max_clock(old(self)@, other@),
    {
        self.map = max_merge(&self.map, &other.map);
    }

    /// Advances the counter of `replica` by one.
    pub fn increment(&mut self, replica: ReplicaId)
        requires
            count_of(old(self)@, replica.0) < u64::MAX,
        ensures
            final(self)@ == old(self)@.insert(replica.0, (count_of(old(self)@, replica.0) + 1) as u64),
    {
        let c = get_count(&self.map, replica.0);
        self.map.insert(replica.0, c + 1);
    }

    /// The counter of `replica`, zero when it is missing.
    pub fn get(&self, replica: ReplicaId) -> (r: u64)
        ensures
            r == count_of(self@, replica.0),
    {
        get_count(&self.map, replica.0)
    }

    /// Equal, before, after, or `None` when concurrent.
    pub fn partial_ord_impl(a: &Self, b: &Self) -> (r: Option<Ordering>)
        ensures
            r == clock_cmp(a@, b@),
    {
        compare_clocks(&a.map, &b.map)
    }
}

impl Default for VTime {
    fn default() -> (r: Self)
        ensures
            r@ == Map::<u64, u64>::empty(),
    {
        VTime::new()
    }
}

impl PartialEq for VTime {
    fn eq(&self, other: &Self) -> (r: bool) {
        match Self::partial_ord_impl(self, other) {
            Some(Ordering::Equal) => true,
            _ => false,
        }
    }
}

impl vstd::std_specs::cmp::PartialEqSpecImpl for VTime {
    open spec fn obeys_eq_spec() -> bool {
        true
    }

    open spec fn eq_spec(&self, other: &VTime) -> bool {
        clock_cmp(self@, other@) == Some(Ordering::Equal)
    }
}

impl PartialOrd for VTime {
    fn partial_cmp(&self, other: &Self) -> (r: Option<Ordering>) {
        Self::partial_ord_impl(self, other)
    }
}

impl vstd::std_specs::cmp::PartialOrdSpecImpl for VTime {
    open spec fn obeys_partial_cmp_spec() -> bool {
        true
    }

    open spec fn partial_cmp_spec(&self, other: &VTime) -> Option<Ordering> {
        clock_cmp(self@, other@)
    }
}

/// The payload of an event: it can be copied.
pub trait EventData: Sized {
    fn duplicate(&self) -> Self;
}

/// An operation, tagged with its origin, its sequence numbers and its version.
#[derive(Clone, Debug)]
pub struct Event<D> {
    pub origin: ReplicaId,
    pub origin_seq: u64,
    pub local_seq: u64,
    pub version: VTime,
    pub data: D,
}

/// What an event is tagged with: origin, origin sequence, local sequence, version.
pub type EventMeta = (u64, u64, u64, Map<u64, u64>);

impl<D: EventData> Event<D> {
    pub open spec fn meta(&self) -> EventMeta {
        (self.origin.0, self.origin_seq, self.local_seq, self.version@)
    }

    pub fn duplicate(&self) -> (r: Self)
        ensures
            r.meta() == self.meta(),
    {
        Event {
            origin: self.origin,
            origin_seq: self.origin_seq,
            local_seq: self.local_seq,
            version: self.version.duplicate(),
            data: self.data.duplicate(),
        }
    }
}

/// A replicated data type driven by events: `prepare` turns a command into event
/// data against the current state, `effect` applies an event.
pub trait Crdt: Sized {
    type State;

    type EData: EventData;

    type Cmd;

    /// Whether the command can be prepared on this state.
    spec fn ready(&self, op: &Self::Cmd) -> bool;

    /// Whether `r` is the event data that `prepare` makes of `op` on this state.
    spec fn prepares(&self, op: Self::Cmd, r: Self::EData) -> bool;

    /// Whether `next` is this state once `e` is applied.
    spec fn applies(&self, e: Event<Self::EData>, next: Self) -> bool;

    /// Whether `r` is what `query` answers on this state.
    spec fn answers(&self, r: Self::State) -> bool;

    fn query(&self) -> (r: Self::State)
        ensures
            self.answers(r),
    ;

    fn prepare(&self, op: Self::Cmd) -> (r: Self::EData)
        requires
            self.ready(&op),
        ensures
            self.prepares(op, r),
    ;

    fn effect(&mut self, event: Event<Self::EData>)
        ensures
            old(self).applies(event, *final(self)),
    ;

    fn duplicate(&self) -> Self;
}

/// Whether a replica, with the given observed sequences and version, has not yet
/// seen the event received from `from`.
pub open spec fn unseen(observed: Map<u64, u64>, version: Map<u64, u64>, from: u64, e: EventMeta) -> bool {
    if observed.contains_key(from) && e.1 <= observed[from] {
        false
    } else {
        clock_cmp(e.3, version) matches Some(Ordering::Greater) || clock_cmp(e.3, version) is None
    }
}

/// `unseen`, on the given observed sequences and version.
pub fn is_unseen_by<D: EventData>(observed: &BTreeMap<u64, u64>, version: &VTime, node_id: ReplicaId, e: &Event<D>) -> (r: bool)
    ensures
        r == unseen(observed@, version@, node_id.0, e.meta()),
{
    match observed.get(&node_id.0) {
        Some(ver) => {
            if e.origin_seq <= *ver {
                return false;
            }
        },
        None => {},
    }
    match VTime::partial_ord_impl(&e.version, version) {
        Some(Ordering::Greater) | None => true,
        _ => false,
    }
}

/// The events a replica with the given observed sequences and version accepts from `from`.
pub open spec fn fresh_pred(observed: Map<u64, u64>, version: Map<u64, u64>, from: u64) -> spec_fn(EventMeta) -> bool {
    |m: EventMeta| unseen(observed, version, from, m)
}

/// The events a replica with the given observed sequences and version accepts from `from`.
pub open spec fn fresh_event_pred<D: EventData>(observed: Map<u64, u64>, version: Map<u64, u64>, from: u64) -> spec_fn(Event<D>) -> bool {
    |e: Event<D>| unseen(observed, version, from, e.meta())
}

/// Whether `states` are the states a data type passes through when the events of `s`
/// are applied in order from `c0`, ending in `c1`.
pub open spec fn applied_run<C: Crdt>(c0: C, s: Seq<Event<C::EData>>, states: Seq<C>, c1: C) -> bool {
    &&& states.len() == s.len() + 1
    &&& states[0] == c0
    &&& states.last() == c1
    &&& forall|i: int| 0 <= i < s.len() ==> #[trigger] states[i].applies(s[i], states[i + 1])
}

/// Whether applying the events of `s`, in order, takes a data type from `c0` to `c1`.
pub open spec fn applied_seq<C: Crdt>(c0: C, s: Seq<Event<C::EData>>, c1: C) -> bool {
    exists|states: Seq<C>| #[trigger] applied_run(c0, s, states, c1)
}

/// Applying no event leaves the state as it is.
pub proof fn lemma_applied_empty<C: Crdt>(c0: C)
    ensures
        applied_seq(c0, Seq::<Event<C::EData>>::empty(), c0),
{
    assert(applied_run(c0, Seq::<Event<C::EData>>::empty(), seq![c0], c0));
}

/// Applying one more event extends a run of applied events.
pub proof fn lemma_applied_push<C: Crdt>(c0: C, s: Seq<Event<C::EData>>, mid: C, e: Event<C::EData>, c1: C)
    requires
        applied_seq(c0, s, mid),
        mid.applies(e, c1),
    ensures
        applied_seq(c0, s.push(e), c1),
{
    let st = choose|st: Seq<C>| #[trigger] applied_run(c0, s, st, mid);
    let st2 = st.push(c1);
    assert forall|i: int| 0 <= i < s.push(e).len() implies #[trigger] st2[i].applies(s.push(e)[i], st2[i + 1]) by {
        if i < s.len() {
            assert(st[i].applies(s[i], st[i + 1]));
        }
    }
    assert(applied_run(c0, s.push(e), st2, c1));
}

/// Two runs of applied events chain into one.
pub proof fn lemma_applied_concat<C: Crdt>(c0: C, s1: Seq<Event<C::EData>>, c1: C, s2: Seq<Event<C::EData>>, c2: C)
    requires
        applied_seq(c0, s1, c1),
        applied_seq(c1, s2, c2),
    ensures
        applied_seq(c0, s1 + s2, c2),
{
    let a = choose|st: Seq<C>| #[trigger] applied_run(c0, s1, st, c1);
    let b = choose|st: Seq<C>| #[trigger] applied_run(c1, s2, st, c2);
    let st = a + b.drop_first();
    assert forall|i: int| 0 <= i < (s1 + s2).len() implies #[trigger] st[i].applies((s1 + s2)[i], st[i + 1]) by {
        if i < s1.len() {
            assert(a[i].applies(s1[i], a[i + 1]));
        } else {
            let k = i - s1.len();
            assert(b[k].applies(s2[k], b[k + 1]));
        }
    }
    assert(applied_run(c0, s1 + s2, st, c2));
}

/// The persisted state of a replica.
pub struct ReplicationState<C> {
    pub id: ReplicaId,
    pub seq: u64,
    pub version: VTime,
    pub observed: BTreeMap<u64, u64>,
    pub crdt: C,
}

impl<C: Crdt> ReplicationState<C> {
    pub fn new(id: ReplicaId, crdt: C) -> (r: Self)
        ensures
            r.id == id,
            r.seq == 0,
            r.version@ == Map::<u64, u64>::empty(),
            r.observed@ == Map::<u64, u64>::empty(),
            r.crdt == crdt,
    {
        ReplicationState { id, seq: 0, version: VTime::new(), observed: BTreeMap::new(), crdt }
    }

    pub fn duplicate(&self) -> (r: Self)
        ensures
            r.id == self.id,
            r.seq == self.seq,
            r.version@ == self.version@,
            r.observed@ == self.observed@,
    {
        ReplicationState {
            id: self.id,
            seq: self.seq,
            version: self.version.duplicate(),
            observed: self.observed.clone(),
            crdt: self.crdt.duplicate(),
        }
    }

    /// False for an event whose origin sequence was already observed from `node_id`;
    /// otherwise true when the event's version is after or concurrent with ours.
    pub fn is_unseen(&self, node_id: ReplicaId, e: &Event<C::EData>) -> (r: bool)
        ensures
            r == unseen(self.observed@, self.version@, node_id.0, e.meta()),
    {
        is_unseen_by(&self.observed, &self.version, node_id, e)
    }
}

/// The tags of a sequence of events.
pub open spec fn metas<D: EventData>(s: Seq<Event<D>>) -> Seq<EventMeta> {
    s.map_values(|e: Event<D>| e.meta())
}

/// Whether a version is after or concurrent with `filter`: what a pull hands out.
pub open spec fn not_dominated(v: Map<u64, u64>, filter: Map<u64, u64>) -> bool {
    clock_cmp(v, filter) matches Some(Ordering::Greater) || clock_cmp(v, filter) is None
}

/// First position, in a log of `len` events, that a read from local sequence number
/// `seq_nr` looks at (sequence numbers start at one).
pub open spec fn window_lo(len: int, seq_nr: u64) -> int {
    if seq_nr == 0 {
        0
    } else if seq_nr - 1 < len {
        seq_nr - 1
    } else {
        len
    }
}

/// One past the last position a pull of at most `count` events scans.
pub open spec fn window_hi(len: int, seq_nr: u64, count: u64) -> int {
    if window_lo(len, seq_nr) + count < len {
        window_lo(len, seq_nr) + count
    } else {
        len
    }
}

/// `base` joined with the versions of the events tagged `s`, in order.
pub open spec fn versions_join(base: Map<u64, u64>, s: Seq<EventMeta>) -> Map<u64, u64>
    decreases s.len(),
{
    if s.len() == 0 {
        base
    } else {
        max_clock(versions_join(base, s.drop_last()), s.last().3)
    }
}

/// Joining versions in never moves a version back.
pub proof fn lemma_versions_join_grows(base: Map<u64, u64>, s: Seq<EventMeta>)
    ensures
        clock_le(base, versions_join(base, s)),
    decreases s.len(),
{
    if s.len() > 0 {
        lemma_versions_join_grows(base, s.drop_last());
        let prev = versions_join(base, s.drop_last());
        assert forall|r: u64| count_of(base, r) <= count_of(versions_join(base, s), r) by {
            assert(count_of(prev, r) <= count_of(max_clock(prev, s.last().3), r));
        }
    }
}

/// The highest of `base` and the local sequence numbers of the events tagged `s`.
pub open spec fn last_seen(base: int, s: Seq<EventMeta>) -> int
    decreases s.len(),
{
    if s.len() == 0 {
        base
    } else {
        let prev = last_seen(base, s.drop_last());
        if s.last().2 > prev {
            s.last().2 as int
        } else {
            prev
        }
    }
}

/// The observed sequences after accepting the events tagged `fresh` from `from`.
pub open spec fn observed_after(observed: Map<u64, u64>, from: u64, fresh: Seq<EventMeta>) -> Map<u64, u64> {
    if fresh.len() == 0 {
        observed
    } else {
        observed.insert(from, last_seen(count_of(observed, from) as int, fresh) as u64)
    }
}

/// The tags the log stores for accepted remote events: local sequence numbers
/// continue from `base`.
pub open spec fn restamp(s: Seq<EventMeta>, base: int) -> Seq<EventMeta> {
    Seq::new(s.len(), |i: int| (s[i].0, s[i].1, (base + i + 1) as u64, s[i].3))
}

/// An in-memory store: the last snapshot and the event log, keyed by local sequence.
pub struct InMemoryDb<C: Crdt> {
    pub state: Option<ReplicationState<C>>,
    pub events: Vec<Event<C::EData>>,
}

impl<C: Crdt> InMemoryDb<C> {
    /// The log holds local sequence numbers 1, 2, ... in order, and a snapshot is
    /// never ahead of the log.
    pub open spec fn wf(&self) -> bool {
        &&& forall|i: int| 0 <= i < self.events.len() ==> #[trigger] self.events[i].local_seq == i + 1
        &&& self.events.len() < u64::MAX
        &&& (self.state matches Some(st) ==> st.seq <= self.events.len())
    }

    pub fn new() -> (r: Self)
        ensures
            r.wf(),
            r.state is None,
            r.events.len() == 0,
    {
        InMemoryDb { state: None, events: Vec::new() }
    }

    /// Overwrites the snapshot.
    pub fn save_snapshot(&mut self, state: ReplicationState<C>)
        ensures
            final(self).state == Some(state),
            final(self).events == old(self).events,
    {
        self.state = Some(state);
    }

    pub fn load_snapshot(&self) -> (r: Option<ReplicationState<C>>)
        ensures
            r is Some <==> self.state is Some,
            r matches Some(st) ==> self.state matches Some(s0) && st.id == s0.id && st.seq == s0.seq
                && st.version@ == s0.version@ && st.observed@ == s0.observed@,
    {
        match &self.state {
            Some(st) => Some(st.duplicate()),
            None => None,
        }
    }

    /// Copies of the events from local sequence `start_seq` on, in order.
    pub fn load_events(&self, start_seq: u64) -> (r: Vec<Event<C::EData>>)
        requires
            self.wf(),
        ensures
            metas(r@) == metas(self.events@).subrange(
                window_lo(self.events.len() as int, start_seq),
                self.events.len() as int,
            ),
    {
        let mut r: Vec<Event<C::EData>> = Vec::new();
        let len = self.events.len();
        let lo: usize = if start_seq == 0 {
            0
        } else if start_seq - 1 < len as u64 {
            (start_seq - 1) as usize
        } else {
            len
        };
        let mut i: usize = lo;
        while i < self.events.len()
            invariant
                lo <= i <= self.events.len(),
                metas(r@) == metas(self.events@).subrange(lo as int, i as int),
            decreases self.events.len() - i,
        {
            let ghost before = r@;
            let e = self.events[i].duplicate();
            r.push(e);
            assert(r@ == before.push(e));
            assert(metas(self.events@)[i as int] == self.events@[i as int].meta());
            assert(metas(r@) =~= metas(before).push(e.meta()));
            assert(metas(self.events@).subrange(lo as int, i + 1) =~= metas(self.events@).subrange(
                lo as int,
                i as int,
            ).push(metas(self.events@)[i as int]));
            i = i + 1;
        }
        r
    }

    /// Appends events to the log.
    pub fn save_events(&mut self, events: Vec<Event<C::EData>>)
        ensures
            final(self).events@ == old(self).events@ + events@,
            final(self).state == old(self).state,
    {
        let mut events = events;
        self.events.append(&mut events);
    }
}

impl<C: Crdt> Default for InMemoryDb<C> {
    fn default() -> (r: Self)
        ensures
            r.wf(),
            r.state is None,
            r.events.len() == 0,
    {
        InMemoryDb::new()
    }
}

/// Ask to pull from `replica_id`.
pub struct Connect {
    pub replica_id: ReplicaId,
}

/// "Send me the events from local sequence `seq_nr` on that `filter` does not dominate."
pub struct Replicate {
    pub seq_nr: u64,
    pub max_count: u64,
    pub filter: VTime,
    pub reply_to: ReplicaId,
}

/// A batch of events, and the last local sequence number scanned to build it.
pub struct Replicated<D> {
    pub from: ReplicaId,
    pub to_seq_nr: u64,
    pub events: Vec<Event<D>>,
}

/// The messages a replicator consumes and produces.
pub enum Protocol<Cmd, EData> {
    Command(Cmd),
    Connect(Connect),
    Replicate(Replicate),
    Replicated(Replicated<EData>),
    Noop,
}

/// Where replication from a peer stands.
pub struct ReplicationStatus {
    pub replica_id: ReplicaId,
}

/// A replica of an operation-based data type, with its store.
pub struct Replicator<C: Crdt> {
    pub store: InMemoryDb<C>,
    pub state: ReplicationState<C>,
}

impl<C: Crdt> Replicator<C> {
    /// The log is dense and as long as the local sequence.
    pub open spec fn wf(&self) -> bool {
        &&& self.store.wf()
        &&& self.store.events.len() == self.state.seq
    }

    /// Loads the snapshot, if any, and applies the logged events that follow it.
    pub fn new(id: ReplicaId, crdt: C, store: InMemoryDb<C>) -> (r: Self)
        requires
            store.wf(),
        ensures
            r.wf(),
            r.store.events@ == store.events@,
            store.state is None ==> r.state.id == id,
            store.state matches Some(st) ==> r.state.id == st.id,
            store.state is None && store.events.len() == 0 ==> r.state.seq == 0 && r.state.version@ == Map::<
                u64,
                u64,
            >::empty() && r.state.observed@ == Map::<u64, u64>::empty() && r.state.crdt == crdt,
    {
        let mut store = store;
        let snapshot = store.load_snapshot();
        let mut state = match snapshot {
            Some(st) => st,
            None => ReplicationState::new(id, crdt),
        };
        let mut i: usize = state.seq as usize;
        let ghost start_id = state.id;
        while i < store.events.len()
            invariant
                store.wf(),
                state.seq <= store.events.len(),
                i == state.seq,
                state.id == start_id,
                store.state is None && store.events.len() == 0 ==> state.seq == 0 && state.version@ == Map::<
                    u64,
                    u64,
                >::empty() && state.observed@ == Map::<u64, u64>::empty() && state.crdt == crdt,
            decreases store.events.len() - i,
        {
            let event = store.events[i].duplicate();
            if event.local_seq > state.seq {
                state.seq = event.local_seq;
            }
            state.version.merge(&event.version);
            state.observed.insert(event.origin.0, event.origin_seq);
            state.crdt.effect(event);
            i = i + 1;
        }
        Replicator { store, state }
    }

    pub fn query(&self) -> (r: C::State)
        ensures
            self.state.crdt.answers(r),
    {
        self.state.crdt.query()
    }

    /// The events of the log from local sequence `seq_nr` on, at most `count` of them,
    /// that `filter` does not dominate; and the last local sequence scanned (zero when
    /// none was).
    pub fn replay(&self, replica_id: ReplicaId, filter: VTime, seq_nr: u64, count: u64) -> (r: Replicated<C::EData>)
        requires
            self.wf(),
        ensures
            ({
                let lo = window_lo(self.store.events.len() as int, seq_nr);
                let hi = window_hi(self.store.events.len() as int, seq_nr, count);
                &&& r.from == replica_id
                &&& r.to_seq_nr == if lo < hi { hi } else { 0 }
                &&& metas(r.events@) == metas(self.store.events@).subrange(lo, hi).filter(
                    |m: EventMeta| not_dominated(m.3, filter@),
                )
            }),
    {
        let ghost hi = window_hi(self.store.events.len() as int, seq_nr, count);
        let len = self.store.events.len();
        let lo: usize = if seq_nr == 0 {
            0
        } else if seq_nr - 1 < len as u64 {
            (seq_nr - 1) as usize
        } else {
            len
        };
        let mut events: Vec<Event<C::EData>> = Vec::new();
        let mut last_seq_nr: u64 = 0;
        let mut taken: u64 = 0;
        let mut i: usize = lo;
        while i < len && taken < count
            invariant
                lo <= i <= len,
                len == self.store.events.len(),
                self.wf(),
                taken == i - lo,
                lo == window_lo(len as int, seq_nr),
                hi == window_hi(len as int, seq_nr, count),
                i <= hi,
                last_seq_nr == if i > lo { i as int } else { 0 },
                metas(events@) == metas(self.store.events@).subrange(lo as int, i as int).filter(
                    |m: EventMeta| not_dominated(m.3, filter@),
                ),
            decreases len - i,
        {
            let e = &self.store.events[i];
            proof {
                let s = metas(self.store.events@);
                assert(s.subrange(lo as int, i + 1) == s.subrange(lo as int, i as int).push(s[i as int]));
                s.subrange(lo as int, i as int).lemma_filter_push(s[i as int], |m: EventMeta| not_dominated(m.3, filter@));
            }
            last_seq_nr = e.local_seq;
            let keep = match VTime::partial_ord_impl(&e.version, &filter) {
                Some(Ordering::Greater) | None => true,
                _ => false,
            };
            let ghost before = events@;
            if keep {
                let c = e.duplicate();
                events.push(c);
                assert(events@ == before.push(c));
            }
            assert(metas(self.store.events@)[i as int] == self.store.events@[i as int].meta());
            assert(metas(events@) =~= metas(self.store.events@).subrange(lo as int, i + 1).filter(
                |m: EventMeta| not_dominated(m.3, filter@),
            ));
            i = i + 1;
            taken = taken + 1;
        }
        Replicated { from: replica_id, to_seq_nr: last_seq_nr, events }
    }

    /// Applies a local command: an event stamped with the next local sequence number
    /// and the advanced version is logged, then applied.
    fn handle_command(&mut self, cmd: C::Cmd)
        requires
            old(self).wf(),
            old(self).state.crdt.ready(&cmd),
            old(self).state.seq < u64::MAX - 1,
            count_of(old(self).state.version@, old(self).state.id.0) < u64::MAX,
        ensures
            final(self).wf(),
            final(self).state.id == old(self).state.id,
            final(self).state.seq == old(self).state.seq + 1,
            final(self).state.version@ == old(self).state.version@.insert(
                old(self).state.id.0,
                (count_of(old(self).state.version@, old(self).state.id.0) + 1) as u64,
            ),
            final(self).state.observed@ == old(self).state.observed@,
            metas(final(self).store.events@) == metas(old(self).store.events@).push(
                (
                    old(self).state.id.0,
                    (old(self).state.seq + 1) as u64,
                    (old(self).state.seq + 1) as u64,
                    final(self).state.version@,
                ),
            ),
            final(self).store.state == old(self).store.state,
            exists|e: Event<C::EData>|
                e.meta() == (
                    old(self).state.id.0,
                    (old(self).state.seq + 1) as u64,
                    (old(self).state.seq + 1) as u64,
                    final(self).state.version@,
                ) && old(self).state.crdt.prepares(cmd, e.data) && #[trigger] old(self).state.crdt.applies(
                    e,
                    final(self).state.crdt,
                ),
    {
        self.state.seq = self.state.seq + 1;
        let seq = self.state.seq;
        self.state.version.increment(self.state.id);
        let data = self.state.crdt.prepare(cmd);
        let event = Event {
            origin: self.state.id,
            origin_seq: seq,
            local_seq: seq,
            version: self.state.version.duplicate(),
            data,
        };
        let mut batch: Vec<Event<C::EData>> = Vec::new();
        batch.push(event.duplicate());
        let ghost before = self.store.events@;
        self.store.save_events(batch);
        assert(metas(self.store.events@) =~= metas(before).push(event.meta()));
        let ghost ev = event;
        self.state.crdt.effect(event);
        assert(old(self).state.crdt.applies(ev, self.state.crdt));
    }

    /// Answers a request to pull from `c.replica_id`, starting after what was observed from it.
    fn handle_connect(&self, c: Connect) -> (r: Replicate)
        requires
            count_of(self.state.observed@, c.replica_id.0) < u64::MAX,
        ensures
            r.seq_nr == count_of(self.state.observed@, c.replica_id.0) + 1,
            r.max_count == BATCH,
            r.filter@ == self.state.version@,
            r.reply_to == self.state.id,
    {
        let seq_nr = get_count(&self.state.observed, c.replica_id.0);
        Replicate {
            seq_nr: seq_nr + 1,
            max_count: BATCH,
            filter: self.state.version.duplicate(),
            reply_to: self.state.id,
        }
    }

    /// Accepts a batch pulled from a peer: the unseen events are restamped with the
    /// next local sequence numbers, applied and logged, and the pull goes on after
    /// `to_seq_nr`. An empty batch ends the pull and records how far it went.
    fn handle_replicated(&mut self, msg: Replicated<C::EData>) -> (r: Protocol<C::Cmd, C::EData>)
        requires
            old(self).wf(),
            msg.events.len() > 0 ==> old(self).state.seq + msg.events.len() < u64::MAX - 1 && msg.to_seq_nr < u64::MAX,
        ensures
            final(self).wf(),
            final(self).state.id == old(self).state.id,
            forall|p: u64| count_of(old(self).state.observed@, p) <= #[trigger] count_of(final(self).state.observed@, p),
            msg.events.len() == 0 ==> {
                &&& r is Noop
                &&& final(self).state.seq == old(self).state.seq
                &&& final(self).state.version@ == old(self).state.version@
                &&& final(self).state.crdt == old(self).state.crdt
                &&& final(self).store.events@ == old(self).store.events@
                &&& final(self).state.observed@ == if msg.to_seq_nr > count_of(old(self).state.observed@, msg.from.0) {
                    old(self).state.observed@.insert(msg.from.0, msg.to_seq_nr)
                } else {
                    old(self).state.observed@
                }
            },
            msg.events.len() > 0 ==> {
                let fresh = metas(msg.events@).filter(
                    fresh_pred(old(self).state.observed@, old(self).state.version@, msg.from.0),
                );
                &&& r matches Protocol::Replicate(q) && q.seq_nr == msg.to_seq_nr + 1 && q.max_count == BATCH
                    && q.filter@ == final(self).state.version@ && q.reply_to == final(self).state.id
                &&& final(self).state.seq == old(self).state.seq + fresh.len()
                &&& final(self).state.version@ == versions_join(old(self).state.version@, fresh)
                &&& final(self).state.observed@ == observed_after(old(self).state.observed@, msg.from.0, fresh)
                &&& applied_seq(
                    old(self).state.crdt,
                    msg.events@.filter(fresh_event_pred::<C::EData>(old(self).state.observed@, old(self).state.version@, msg.from.0)),
                    final(self).state.crdt,
                )
                &&& metas(final(self).store.events@) == metas(old(self).store.events@) + restamp(fresh, old(self).state.seq as int)
            },
    {
        let from = msg.from;
        let to_seq_nr = msg.to_seq_nr;
        let events = msg.events;
        if events.len() == 0 {
            let observed_seq_nr = get_count(&self.state.observed, from.0);
            if to_seq_nr > observed_seq_nr {
                self.state.observed.insert(from.0, to_seq_nr);
                let snapshot = self.state.duplicate();
                self.store.save_snapshot(snapshot);
            }
            return Protocol::Noop;
        }
        let old_observed = self.state.observed.clone();
        let old_version = self.state.version.duplicate();
        let mut remote_seq_nr = get_count(&self.state.observed, from.0);
        let mut to_save: Vec<Event<C::EData>> = Vec::new();
        let ghost pred = fresh_pred(old(self).state.observed@, old(self).state.version@, from.0);
        let ghost epred = fresh_event_pred::<C::EData>(old(self).state.observed@, old(self).state.version@, from.0);
        let ghost orig = events@;
        proof {
            lemma_applied_empty(self.state.crdt);
            assert(orig.subrange(0, 0).filter(epred) =~= Seq::<Event<C::EData>>::empty());
        }
        let n = events.len();
        let mut rest = events;
        let mut i: usize = 0;
        while i < n
            invariant
                0 <= i <= n,
                n == orig.len(),
                rest@ == orig.subrange(i as int, n as int),
                old(self).wf(),
                epred == fresh_event_pred::<C::EData>(old(self).state.observed@, old(self).state.version@, from.0),
                applied_seq(old(self).state.crdt, orig.subrange(0, i as int).filter(epred), self.state.crdt),
                pred == fresh_pred(old(self).state.observed@, old(self).state.version@, from.0),
                old_observed@ == old(self).state.observed@,
                old_version@ == old(self).state.version@,
                self.store == old(self).store,
                self.state.id == old(self).state.id,
                old(self).state.seq + n < u64::MAX - 1,
                self.state.seq == old(self).state.seq + to_save.len(),
                metas(to_save@) == restamp(metas(orig).subrange(0, i as int).filter(pred), old(self).state.seq as int),
                self.state.version@ == versions_join(old(self).state.version@, metas(orig).subrange(0, i as int).filter(pred)),
                to_save.len() <= i,
                count_of(old(self).state.observed@, from.0) <= remote_seq_nr,
                remote_seq_nr == last_seen(count_of(old(self).state.observed@, from.0) as int, metas(orig).subrange(0, i as int).filter(pred)),
                self.state.observed@ == observed_after(old(self).state.observed@, from.0, metas(orig).subrange(0, i as int).filter(pred)),
                forall|p: u64| count_of(old(self).state.observed@, p) <= #[trigger] count_of(self.state.observed@, p),
            decreases n - i,
        {
            let e = rest.remove(0);
            assert(e == orig[i as int]);
            assert(rest@ =~= orig.subrange(i + 1, n as int));
            let ghost fe = orig.subrange(0, i as int).filter(epred);
            let ghost mid = self.state.crdt;
            proof {
                assert(orig.subrange(0, i + 1) == orig.subrange(0, i as int).push(orig[i as int]));
                orig.subrange(0, i as int).lemma_filter_push(orig[i as int], epred);
                let s = metas(orig);
                assert(s.subrange(0, i + 1) == s.subrange(0, i as int).push(s[i as int]));
                s.subrange(0, i as int).lemma_filter_push(s[i as int], pred);
                assert(s[i as int] == e.meta());
            }
            let ghost before = to_save@;
            let ghost fbefore = metas(orig).subrange(0, i as int).filter(pred);
            let fresh = is_unseen_by(&old_observed, &old_version, from, &e);
            assert(pred(e.meta()) == fresh);
            if fresh {
                assert(metas(orig).subrange(0, i + 1).filter(pred) == fbefore.push(e.meta()));
                assert(fbefore.push(e.meta()).drop_last() =~= fbefore);
                assert(metas(before).len() == before.len());
                assert(fbefore.len() == before.len());
                self.state.seq = self.state.seq + 1;
                self.state.version.merge(&e.version);
                if e.local_seq > remote_seq_nr {
                    remote_seq_nr = e.local_seq;
                }
                let mut new_event = e.duplicate();
                new_event.local_seq = self.state.seq;
                let ghost ev = e;
                self.state.crdt.effect(e);
                proof {
                    lemma_applied_push(old(self).state.crdt, fe, mid, ev, self.state.crdt);
                    assert(orig.subrange(0, i + 1).filter(epred) == fe.push(ev));
                }
                let ghost obs_before = self.state.observed@;
                self.state.observed.insert(from.0, remote_seq_nr);
                assert(self.state.observed@ =~= observed_after(old(self).state.observed@, from.0, fbefore.push(e.meta())));
                assert forall|p: u64| count_of(old(self).state.observed@, p) <= #[trigger] count_of(self.state.observed@, p) by {
                    if p != from.0 {
                        assert(count_of(self.state.observed@, p) == count_of(obs_before, p));
                    }
                }
                to_save.push(new_event);
                assert(to_save@ == before.push(new_event));
                assert(metas(to_save@) =~= metas(before).push(new_event.meta()));
                assert(restamp(fbefore.push(e.meta()), old(self).state.seq as int) =~= restamp(fbefore, old(self).state.seq as int).push(new_event.meta()));
            } else {
                assert(metas(orig).subrange(0, i + 1).filter(pred) == fbefore);
                assert(orig.subrange(0, i + 1).filter(epred) == fe);
            }
            i = i + 1;
        }
        assert(metas(orig).subrange(0, n as int) == metas(orig));
        assert(orig.subrange(0, n as int) == orig);
        let ghost before_store = self.store.events@;
        self.store.save_events(to_save);
        assert(metas(self.store.events@) =~= metas(before_store) + metas(to_save@));
        assert forall|k: int| 0 <= k < self.store.events.len() implies #[trigger] self.store.events[k].local_seq == k + 1 by {
            if k >= before_store.len() {
                assert(metas(self.store.events@)[k] == self.store.events@[k].meta());
            }
        }
        Protocol::Replicate(
            Replicate {
                seq_nr: to_seq_nr + 1,
                max_count: BATCH,
                filter: self.state.version.duplicate(),
                reply_to: self.state.id,
            },
        )
    }

    /// Whether `msg` can be handled: a command must be valid on the current state,
    /// and the counters it advances must not overflow.
    pub open spec fn accepts(&self, msg: &Protocol<C::Cmd, C::EData>) -> bool {
        match msg {
            Protocol::Command(c) => self.state.crdt.ready(c) && self.state.seq < u64::MAX - 1
                && count_of(self.state.version@, self.state.id.0) < u64::MAX,
            Protocol::Connect(c) => count_of(self.state.observed@, c.replica_id.0) < u64::MAX,
            Protocol::Replicated(x) => x.events.len() > 0 ==> self.state.seq + x.events.len() < u64::MAX - 1
                && x.to_seq_nr < u64::MAX,
            _ => true,
        }
    }

    /// Handles one message and returns the message to pass on.
    pub fn send(&mut self, msg: Protocol<C::Cmd, C::EData>) -> (r: Protocol<C::Cmd, C::EData>)
        requires
            old(self).wf(),
            old(self).accepts(&msg),
        ensures
            final(self).wf(),
            final(self).state.id == old(self).state.id,
            old(self).state.seq <= final(self).state.seq,
            clock_le(old(self).state.version@, final(self).state.version@),
            forall|p: u64| count_of(old(self).state.observed@, p) <= #[trigger] count_of(final(self).state.observed@, p),
            old(self).store.events.len() <= final(self).store.events.len(),
            metas(final(self).store.events@).subrange(0, old(self).store.events.len() as int) == metas(old(self).store.events@),
            match msg {
                Protocol::Noop => r is Noop && *final(self) == *old(self),
                Protocol::Command(cmd) => r is Noop && final(self).state.observed@ == old(self).state.observed@
                    && (exists|e: Event<C::EData>|
                    e.meta() == (
                        old(self).state.id.0,
                        (old(self).state.seq + 1) as u64,
                        (old(self).state.seq + 1) as u64,
                        final(self).state.version@,
                    ) && old(self).state.crdt.prepares(cmd, e.data) && #[trigger] old(self).state.crdt.applies(
                        e,
                        final(self).state.crdt,
                    )) && final(self).state.seq == old(self).state.seq + 1
                    && final(self).state.version@ == old(self).state.version@.insert(
                        old(self).state.id.0,
                        (count_of(old(self).state.version@, old(self).state.id.0) + 1) as u64,
                    ) && metas(final(self).store.events@) == metas(old(self).store.events@).push(
                        (
                            old(self).state.id.0,
                            (old(self).state.seq + 1) as u64,
                            (old(self).state.seq + 1) as u64,
                            final(self).state.version@,
                        ),
                    ),
                Protocol::Connect(c) => r matches Protocol::Replicate(q) && q.seq_nr == count_of(
                    old(self).state.observed@,
                    c.replica_id.0,
                ) + 1 && q.max_count == BATCH && q.filter@ == old(self).state.version@ && q.reply_to
                    == old(self).state.id && *final(self) == *old(self),
                Protocol::Replicate(q) => {
                    let lo = window_lo(old(self).store.events.len() as int, q.seq_nr);
                    let hi = window_hi(old(self).store.events.len() as int, q.seq_nr, q.max_count);
                    &&& r matches Protocol::Replicated(x) && x.from == old(self).state.id && x.to_seq_nr == (
                    if lo < hi {
                        hi
                    } else {
                        0
                    }) && metas(x.events@) == metas(old(self).store.events@).subrange(lo, hi).filter(
                        |m: EventMeta| not_dominated(m.3, q.filter@),
                    )
                    &&& *final(self) == *old(self)
                },
                Protocol::Replicated(x) => {
                    &&& x.events.len() == 0 ==> r is Noop && final(self).state.seq == old(self).state.seq
                        && final(self).store.events@ == old(self).store.events@ && final(self).state.crdt
                        == old(self).state.crdt && final(self).state.observed@ == if x.to_seq_nr > count_of(
                        old(self).state.observed@,
                        x.from.0,
                    ) {
                        old(self).state.observed@.insert(x.from.0, x.to_seq_nr)
                    } else {
                        old(self).state.observed@
                    }
                    &&& x.events.len() > 0 ==> {
                        let fresh = metas(x.events@).filter(
                            fresh_pred(old(self).state.observed@, old(self).state.version@, x.from.0),
                        );
                        &&& r matches Protocol::Replicate(q) && q.seq_nr == x.to_seq_nr + 1 && q.max_count
                            == BATCH && q.filter@ == final(self).state.version@ && q.reply_to
                            == final(self).state.id
                        &&& final(self).state.seq == old(self).state.seq + fresh.len()
                        &&& final(self).state.version@ == versions_join(old(self).state.version@, fresh)
                        &&& final(self).state.observed@ == observed_after(old(self).state.observed@, x.from.0, fresh)
                        &&& applied_seq(
                            old(self).state.crdt,
                            x.events@.filter(
                                fresh_event_pred::<C::EData>(old(self).state.observed@, old(self).state.version@, x.from.0),
                            ),
                            final(self).state.crdt,
                        )
                        &&& metas(final(self).store.events@) == metas(old(self).store.events@) + restamp(
                            fresh,
                            old(self).state.seq as int,
                        )
                    }
                },
            },
    {
        let ghost old_metas = metas(self.store.events@);
        let r = match msg {
            Protocol::Noop => Protocol::Noop,
            Protocol::Command(cmd) => {
                self.handle_command(cmd);
                Protocol::Noop
            },
            Protocol::Connect(c) => Protocol::Replicate(self.handle_connect(c)),
            Protocol::Replicate(q) => {
                let id = self.state.id;
                Protocol::Replicated(self.replay(id, q.filter, q.seq_nr, q.max_count))
            },
            Protocol::Replicated(x) => {
                let ghost fresh = metas(x.events@).filter(
                    fresh_pred(self.state.observed@, self.state.version@, x.from.0),
                );
                proof {
                    lemma_versions_join_grows(self.state.version@, fresh);
                }
                self.handle_replicated(x)
            },
        };
        assert(metas(self.store.events@).subrange(0, old(self).store.events.len() as int) =~= old_metas);
        r
    }
}

/// In the log of a well-formed replicator, local sequence numbers strictly increase.
pub proof fn lemma_local_seq_increasing<C: Crdt>(r: &Replicator<C>)
    requires
        r.wf(),
    ensures
        forall|i: int, j: int|
            0 <= i < j < r.store.events.len() ==> #[trigger] r.store.events[i].local_seq
                < #[trigger] r.store.events[j].local_seq,
{
}

/// Pulls from `from` into `replica` until a pull comes back empty.
fn replicate_impl<C: Crdt>(replica: &mut Replicator<C>, from: &mut Replicator<C>, initial: Replicate)
    requires
        old(replica).wf(),
        old(from).wf(),
        old(replica).state.seq + old(from).store.events.len() < u64::MAX - 1,
    ensures
        final(replica).wf(),
        final(from).wf(),
        *final(from) == *old(from),
        exists|s: Seq<Event<C::EData>>| applied_seq(old(replica).state.crdt, s, final(replica).state.crdt),
{
    let ghost n0 = from.store.events.len() as int;
    let ghost mut acc: Seq<Event<C::EData>> = Seq::empty();
    proof {
        lemma_applied_empty(replica.state.crdt);
    }
    let mut req = initial;
    loop
        invariant
            replica.wf(),
            from.wf(),
            *from == *old(from),
            applied_seq(old(replica).state.crdt, acc, replica.state.crdt),
            n0 == from.store.events.len(),
            replica.state.seq + (n0 - window_lo(n0, req.seq_nr)) < u64::MAX - 1,
        decreases n0 - window_lo(n0, req.seq_nr),
    {
        let ghost lo = window_lo(n0, req.seq_nr);
        let ghost hi = window_hi(n0, req.seq_nr, req.max_count);
        let ghost filter = req.filter@;
        let resp = from.send(Protocol::Replicate(req));
        proof {
            if let Protocol::Replicated(x) = &resp {
                let s = metas(from.store.events@).subrange(lo, hi);
                s.lemma_filter_len(|m: EventMeta| not_dominated(m.3, filter));
                assert(metas(x.events@).len() == x.events.len());
                if x.events.len() > 0 {
                    assert(lo < hi);
                    let f = fresh_pred(replica.state.observed@, replica.state.version@, x.from.0);
                    metas(x.events@).lemma_filter_len(f);
                }
            }
        }
        let ghost rb = *replica;
        let ghost g = resp;
        let next = replica.send(resp);
        proof {
            if let Protocol::Replicated(x) = g {
                if x.events.len() > 0 {
                    let f = x.events@.filter(
                        fresh_event_pred::<C::EData>(rb.state.observed@, rb.state.version@, x.from.0),
                    );
                    lemma_applied_concat(old(replica).state.crdt, acc, rb.state.crdt, f, replica.state.crdt);
                    acc = acc + f;
                }
            }
        }
        match next {
            Protocol::Replicate(q) => {
                req = q;
            },
            _ => {
                break;
            },
        }
    }
}

/// Pulls everything `from` has that `replica` has not seen.
pub fn replicate<C: Crdt>(replica: &mut Replicator<C>, from: &mut Replicator<C>)
    requires
        old(replica).wf(),
        old(from).wf(),
        old(replica).state.seq + old(from).store.events.len() < u64::MAX - 1,
        count_of(old(replica).state.observed@, old(from).state.id.0) < u64::MAX,
    ensures
        final(replica).wf(),
        final(from).wf(),
        *final(from) == *old(from),
        exists|s: Seq<Event<C::EData>>| applied_seq(old(replica).state.crdt, s, final(replica).state.crdt),
{
    let seq_nr = get_count(&replica.state.observed, from.state.id.0) + 1;
    let initial = Replicate {
        seq_nr,
        max_count: BATCH,
        filter: replica.state.version.duplicate(),
        reply_to: replica.state.id,
    };
    replicate_impl(replica, from, initial);
}

/// Connects `replica` to `to` and pulls from it.
pub fn connect<C: Crdt>(replica: &mut Replicator<C>, to: &mut Replicator<C>)
    requires
        old(replica).wf(),
        old(to).wf(),
        old(replica).state.seq + old(to).store.events.len() < u64::MAX - 1,
        count_of(old(replica).state.observed@, old(to).state.id.0) < u64::MAX,
    ensures
        final(replica).wf(),
        final(to).wf(),
        *final(to) == *old(to),
        exists|s: Seq<Event<C::EData>>| applied_seq(old(replica).state.crdt, s, final(replica).state.crdt),
{
    let msg = replica.send(Protocol::Connect(Connect { replica_id: to.state.id }));
    match msg {
        Protocol::Replicate(initial) => replicate_impl(replica, to, initial),
        _ => {
            proof {
                lemma_applied_empty(replica.state.crdt);
            }
        },
    }
}



} // verus!
