//! The event log: every event this server has seen, and those waiting for
//! their dependencies.

use vstd::prelude::*;
use crate::id::{EventClock, EventId, EpochId, ServerId, clock_le, id_lt};

verus! {

/// A change to network state, as recorded in the log.
///
/// The log only inspects the identifier, timestamp and dependency clock;
/// the target and details of the change travel in `payload`.
#[derive(Debug)]
pub struct Event {
    pub id: EventId,
    pub timestamp: i64,
    /// The events seen by the emitting server before this one was emitted.
    pub clock: EventClock,
    pub payload: Vec<u8>,
}

/// The mathematical content of an [`Event`].
pub struct EventView {
    pub id: EventId,
    pub timestamp: i64,
    pub clock: Map<ServerId, EventId>,
    pub payload: Seq<u8>,
}

impl View for Event {
    type V = EventView;

    open spec fn view(&self) -> EventView {
        EventView { id: self.id, timestamp: self.timestamp, clock: self.clock@, payload: self.payload@ }
    }
}

impl Event {
    /// A copy of this event.
    pub fn duplicate(&self) -> (r: Event)
        ensures
            r@ == self@,
            r.id == self.id,
            r.clock.ids() == self.clock.ids(),
    {
        Event {
            id: self.id,
            timestamp: self.timestamp,
            clock: self.clock.duplicate(),
            payload: self.payload.clone(),
        }
    }
}

/// The views of a sequence of events.
pub open spec fn views(s: Seq<Event>) -> Seq<EventView> {
    s.map_values(|e: Event| e@)
}

/// Identifiers strictly increase along `s`.
pub open spec fn sorted_by_id(s: Seq<EventView>) -> bool {
    forall|i: int, j: int| 0 <= i < j < s.len() ==> id_lt(s[i].id, s[j].id)
}

/// No two events of `s` share an identifier.
pub open spec fn distinct_ids(s: Seq<EventView>) -> bool {
    forall|i: int, j: int| 0 <= i < s.len() && 0 <= j < s.len() && i != j ==> s[i].id != s[j].id
}

/// The events of `s`, keyed by identifier.
pub open spec fn events_map(s: Seq<EventView>) -> Map<EventId, EventView> {
    Map::new(
        |k: EventId| exists|i: int| 0 <= i < s.len() && s[i].id == k,
        |k: EventId| s[choose|i: int| 0 <= i < s.len() && s[i].id == k],
    )
}

pub proof fn lemma_sorted_distinct(s: Seq<EventView>)
    requires
        sorted_by_id(s),
    ensures
        distinct_ids(s),
{
    assert forall|i: int, j: int| 0 <= i < s.len() && 0 <= j < s.len() && i != j implies s[i].id != s[j].id by {
        if i < j {
            assert(id_lt(s[i].id, s[j].id));
        } else {
            assert(id_lt(s[j].id, s[i].id));
        }
    }
}

/// In a sequence without repeated identifiers, each event is the map's value
/// for its identifier.
pub proof fn lemma_events_map_entry(s: Seq<EventView>, i: int)
    requires
        distinct_ids(s),
        0 <= i < s.len(),
    ensures
        events_map(s).dom().contains(s[i].id),
        events_map(s)[s[i].id] == s[i],
{
    let k = s[i].id;
    assert(exists|j: int| 0 <= j < s.len() && s[j].id == k);
}

/// The clock after recording each event of `evs`, in order, onto `c`.
pub open spec fn replay_clock(c: Map<ServerId, EventId>, evs: Seq<EventView>) -> Map<ServerId, EventId>
    decreases evs.len(),
{
    if evs.len() == 0 {
        c
    } else {
        replay_clock(c, evs.drop_last()).insert(evs.last().id.server, evs.last().id)
    }
}

/// The map `m` after inserting each event of `evs`, in order, under its identifier.
pub open spec fn insert_all(m: Map<EventId, EventView>, evs: Seq<EventView>) -> Map<EventId, EventView>
    decreases evs.len(),
{
    if evs.len() == 0 {
        m
    } else {
        insert_all(m, evs.drop_last()).insert(evs.last().id, evs.last())
    }
}

/// Each event of `evs` had all its dependencies recorded by the time it
/// was processed, starting from clock `c`.
pub open spec fn causally_ready(c: Map<ServerId, EventId>, evs: Seq<EventView>) -> bool {
    forall|i: int| 0 <= i < evs.len() ==> #[trigger] clock_le(evs[i].clock, replay_clock(c, evs.take(i)))
}

/// The identifiers of the events of `evs`.
pub open spec fn id_set(evs: Seq<EventView>) -> Set<EventId> {
    Set::new(|k: EventId| exists|i: int| 0 <= i < evs.len() && evs[i].id == k)
}

/// `id` was emitted after the clock's entry for its server, or its server
/// is absent from the clock.
pub open spec fn after_clock(c: Map<ServerId, EventId>, id: EventId) -> bool {
    if c.dom().contains(id.server) {
        id_lt(c[id.server], id)
    } else {
        true
    }
}

/// Generates identifiers for the events this server emits.
#[derive(Clone, Copy, Debug, PartialEq, Eq, Structural)]
pub struct EventIdGenerator {
    pub server: ServerId,
    pub epoch: EpochId,
    /// The local part of the most recently issued identifier.
    pub last: u64,
}

impl EventIdGenerator {
    /// A generator whose first identifier has local part `start + 1`.
    pub fn new(server: ServerId, epoch: EpochId, start: u64) -> (r: EventIdGenerator)
        ensures
            r == (EventIdGenerator { server, epoch, last: start }),
    {
        EventIdGenerator { server, epoch, last: start }
    }

    /// Issue the next identifier.
    pub fn next(&mut self) -> (r: EventId)
        requires
            old(self).last < u64::MAX,
        ensures
            r == (EventId { server: old(self).server, epoch: old(self).epoch, local: (old(self).last + 1) as u64 }),
            *final(self) == (EventIdGenerator { last: (old(self).last + 1) as u64, ..*old(self) }),
    {
        self.last = self.last + 1;
        EventId { server: self.server, epoch: self.epoch, local: self.last }
    }
}

/// The mathematical content of an [`EventLog`].
pub struct EventLogView {
    /// Events added to the log, by identifier.
    pub history: Map<EventId, EventView>,
    /// Events waiting for their dependencies, by identifier.
    pub pending: Map<EventId, EventView>,
    /// The log's current event clock.
    pub clock: Map<ServerId, EventId>,
    pub generator: EventIdGenerator,
}

/// Saved state of an [`EventLog`], used to resume it later.
#[derive(Debug)]
pub struct EventLogState {
    pub id_gen: EventIdGenerator,
    pub clock: EventClock,
}

/// Statistics about an [`EventLog`].
#[derive(Debug)]
pub struct EventLogStats {
    pub pending_events: usize,
    pub current_clock: EventClock,
}

/// The event log: the history of every event seen and processed by this
/// server, and the events still waiting for their dependencies.
#[derive(Debug)]
pub struct EventLog {
    history: Vec<Event>,
    pending: Vec<Event>,
    id_gen: EventIdGenerator,
    last_event_clock: EventClock,
}

impl View for EventLog {
    type V = EventLogView;

    closed spec fn view(&self) -> EventLogView {
        EventLogView {
            history: events_map(views(self.history@)),
            pending: events_map(views(self.pending@)),
            clock: self.last_event_clock@,
            generator: self.id_gen,
        }
    }
}

impl EventLog {
    #[verifier::type_invariant]
    closed spec fn well_formed(&self) -> bool {
        &&& sorted_by_id(views(self.history@))
        &&& distinct_ids(views(self.pending@))
    }

    /// A log with no events, an empty clock, and the given identifier generator.
    pub fn new(id_gen: EventIdGenerator) -> (r: EventLog)
        ensures
            r@.history == Map::<EventId, EventView>::empty(),
            r@.pending == Map::<EventId, EventView>::empty(),
            r@.clock == Map::<ServerId, EventId>::empty(),
            r@.generator == id_gen,
    {
        let r = EventLog {
            history: Vec::new(),
            pending: Vec::new(),
            id_gen,
            last_event_clock: EventClock::new(),
        };
        assert(r@.history =~= Map::<EventId, EventView>::empty());
        assert(r@.pending =~= Map::<EventId, EventView>::empty());
        r
    }

    /// Resume a log from saved state: no events, and the saved clock and generator.
    pub fn restore(state: EventLogState) -> (r: EventLog)
        ensures
            r@.history == Map::<EventId, EventView>::empty(),
            r@.pending == Map::<EventId, EventView>::empty(),
            r@.clock == state.clock@,
            r@.generator == state.id_gen,
    {
        let r = EventLog {
            history: Vec::new(),
            pending: Vec::new(),
            id_gen: state.id_gen,
            last_event_clock: state.clock,
        };
        assert(r@.history =~= Map::<EventId, EventView>::empty());
        assert(r@.pending =~= Map::<EventId, EventView>::empty());
        r
    }

    /// Save the state needed to resume the log later; the log is consumed.
    pub fn save_state(self) -> (r: EventLogState)
        ensures
            r.id_gen == self@.generator,
            r.clock@ == self@.clock,
    {
        EventLogState { id_gen: self.id_gen, clock: self.last_event_clock }
    }

    /// The log's current event clock.
    pub fn clock(&self) -> (r: &EventClock)
        ensures
            r@ == self@.clock,
    {
        &self.last_event_clock
    }

    /// Replace the log's clock; used when importing a network state from a peer.
    pub fn set_clock(&mut self, new_clock: EventClock)
        ensures
            final(self)@ == (EventLogView { clock: new_clock@, ..old(self)@ }),
    {
        proof {
            use_type_invariant(&*self);
        }
        self.last_event_clock = new_clock;
    }


    /// The event with identifier `id`, if it has been added to the log.
    pub fn get(&self, id: &EventId) -> (r: Option<&Event>)
        ensures
            match r {
                Some(e) => self@.history.dom().contains(*id) && e@ == self@.history[*id],
                None => !self@.history.dom().contains(*id),
            },
    {
        proof {
            use_type_invariant(self);
            lemma_sorted_distinct(views(self.history@));
        }
        let mut i: usize = 0;
        while i < self.history.len()
            invariant
                i <= self.history@.len(),
                distinct_ids(views(self.history@)),
                forall|j: int| 0 <= j < i ==> self.history@[j].id != *id,
            decreases self.history@.len() - i,
        {
            if self.history[i].id.same_as(id) {
                proof {
                    lemma_events_map_entry(views(self.history@), i as int);
                }
                return Some(&self.history[i]);
            }
            i = i + 1;
        }
        proof {
            if self@.history.dom().contains(*id) {
                let j = choose|j: int| 0 <= j < views(self.history@).len() && views(self.history@)[j].id == *id;
                assert(self.history@[j].id == *id);
            }
        }
        None
    }

    /// Whether all dependencies of `e` are recorded in the log's clock.
    pub fn has_dependencies_for(&self, e: &Event) -> (r: bool)
        ensures
            r == clock_le(e.clock@, self@.clock),
    {
        e.clock.le(&self.last_event_clock)
    }

    /// Put `e` into the history at its sorted position, replacing any event
    /// with the same identifier.
    fn history_insert(&mut self, e: Event)
        ensures
            final(self)@ == (EventLogView { history: old(self)@.history.insert(e@.id, e@), ..old(self)@ }),
            final(self).pending@ == old(self).pending@,
    {
        proof {
            use_type_invariant(&*self);
        }
        let ghost old_views = views(self.history@);
        let mut i: usize = 0;
        while i < self.history.len() && self.history[i].id.precedes(&e.id)
            invariant
                i <= self.history@.len(),
                views(self.history@) == old_views,
                forall|j: int| 0 <= j < i ==> id_lt(#[trigger] old_views[j].id, e.id),
            decreases self.history@.len() - i,
        {
            i = i + 1;
        }
        let mut h: Vec<Event> = Vec::new();
        std::mem::swap(&mut h, &mut self.history);
        let ghost ev = e@;
        if i < h.len() && h[i].id.same_as(&e.id) {
            h.set(i, e);
            proof {
                assert(views(h@) =~= old_views.update(i as int, ev));
                lemma_sorted_replace(old_views, i as int, ev);
            }
        } else {
            proof {
                if i < old_views.len() {
                    let a = old_views[i as int].id;
                    assert(!id_lt(a, ev.id) && a != ev.id);
                }
            }
            h.insert(i, e);
            proof {
                assert(views(h@) =~= old_views.insert(i as int, ev));
                lemma_sorted_insert(old_views, i as int, ev);
            }
        }
        self.history = h;
    }


    /// The position of a pending event whose dependencies are all recorded.
    fn next_satisfied_pending(&self) -> (r: Option<usize>)
        ensures
            match r {
                Some(k) => k < self.pending@.len() && clock_le(self.pending@[k as int].clock@, self@.clock),
                None => forall|k: int| 0 <= k < self.pending@.len() ==> !clock_le(#[trigger] self.pending@[k].clock@, self@.clock),
            },
    {
        let mut i: usize = 0;
        while i < self.pending.len()
            invariant
                i <= self.pending@.len(),
                forall|k: int| 0 <= k < i ==> !clock_le(#[trigger] self.pending@[k].clock@, self@.clock),
            decreases self.pending@.len() - i,
        {
            if self.pending[i].clock.le(&self.last_event_clock) {
                return Some(i);
            }
            i = i + 1;
        }
        None
    }

    /// Add an event to the log.
    ///
    /// - If an event with the same identifier is already in the log, nothing happens.
    /// - If the event's dependencies (its clock) are all recorded in the log's
    ///   clock, it is added, the clock records it, and then every pending event
    ///   whose dependencies have become satisfied is added in the same way.
    /// - Otherwise the event waits in the pending set until they are.
    ///
    /// Returns the events added to the log, in the order they were added; these
    /// are the events that are ready to be applied to network state.
    pub fn add(&mut self, e: Event) -> (r: Vec<Event>)
        ensures
            add_outcome(old(self)@, e@, final(self)@, views(r@)),
    {
        proof {
            use_type_invariant(&*self);
        }
        let ghost o = self@;
        let ghost ev0 = e@;
        if self.get(&e.id).is_some() {
            return Vec::new();
        }
        if !self.has_dependencies_for(&e) {
            let mut p: Vec<Event> = Vec::new();
            std::mem::swap(&mut p, &mut self.pending);
            let ghost pv = views(p@);
            let mut i: usize = 0;
            while i < p.len()
                invariant
                    i <= p@.len(),
                    views(p@) == pv,
                    ev0 == e@,
                    forall|j: int| 0 <= j < i ==> p@[j].id != ev0.id,
                ensures
                    i < p@.len() ==> p@[i as int].id == ev0.id,
                    i <= p@.len(),
                    views(p@) == pv,
                    forall|j: int| 0 <= j < i ==> p@[j].id != ev0.id,
                decreases p@.len() - i,
            {
                if p[i].id.same_as(&e.id) {
                    break;
                }
                i = i + 1;
            }
            if i < p.len() {
                p.set(i, e);
                proof {
                    assert(views(p@) =~= pv.update(i as int, ev0));
                    lemma_events_map_update(pv, i as int, ev0);
                }
            } else {
                p.push(e);
                proof {
                    assert(views(p@) =~= pv.push(ev0));
                    lemma_events_map_push(pv, ev0);
                }
            }
            self.pending = p;
            proof {
                assert(self@ == (EventLogView { pending: o.pending.insert(ev0.id, ev0), ..o }));
            }
            return Vec::new();
        }
        let mut out: Vec<Event> = Vec::new();
        let id = e.id;
        out.push(e.duplicate());
        let mut c = EventClock::new();
        std::mem::swap(&mut c, &mut self.last_event_clock);
        c.update_with_id(id);
        self.last_event_clock = c;
        self.history_insert(e);
        proof {
            let em = views(out@);
            assert(em.drop_last() =~= Seq::<EventView>::empty());
            assert(em.take(0) =~= Seq::<EventView>::empty());
            assert(replay_clock(o.clock, em) == replay_clock(o.clock, em.drop_last()).insert(ev0.id.server, ev0.id));
            assert(insert_all(o.history, em) == insert_all(o.history, em.drop_last()).insert(ev0.id, ev0));
            assert(id_set(em.drop_first()) =~= Set::<EventId>::empty());
            assert(o.pending.remove_keys(Set::<EventId>::empty()) =~= o.pending);
        }
        loop
            invariant
                self.id_gen == o.generator,
                views(out@).len() >= 1,
                views(out@)[0] == ev0,
                causally_ready(o.clock, views(out@)),
                self@.clock == replay_clock(o.clock, views(out@)),
                self@.history == insert_all(o.history, views(out@)),
                forall|i: int| 1 <= i < views(out@).len() ==> #[trigger] o.pending.dom().contains(views(out@)[i].id)
                    && o.pending[views(out@)[i].id] == views(out@)[i],
                forall|i: int, j: int| 1 <= i < views(out@).len() && 1 <= j < views(out@).len() && i != j
                    ==> views(out@)[i].id != views(out@)[j].id,
                self@.pending == o.pending.remove_keys(id_set(views(out@).drop_first())),
            ensures
                forall|k: int| 0 <= k < self.pending@.len() ==> !clock_le(#[trigger] self.pending@[k].clock@, self@.clock),
            decreases self.pending@.len(),
        {
            proof {
                use_type_invariant(&*self);
            }
            match self.next_satisfied_pending() {
                None => {
                    break;
                },
                Some(k) => {
                    let mut p: Vec<Event> = Vec::new();
                    std::mem::swap(&mut p, &mut self.pending);
                    let ghost pv = views(p@);
                    let ghost em = views(out@);
                    let ev = p.remove(k);
                    proof {
                        assert(views(p@) =~= pv.remove(k as int));
                        lemma_events_map_remove(pv, k as int);
                        lemma_events_map_entry(pv, k as int);
                    }
                    self.pending = p;
                    let ghost x = ev@;
                    let evid = ev.id;
                    out.push(ev.duplicate());
                    let mut c = EventClock::new();
                    std::mem::swap(&mut c, &mut self.last_event_clock);
                    c.update_with_id(evid);
                    self.last_event_clock = c;
                    self.history_insert(ev);
                    proof {
                        let em2 = views(out@);
                        let s_old = id_set(em.drop_first());
                        assert(em2 =~= em.push(x));
                        assert(em2.drop_last() =~= em);
                        assert(!s_old.contains(x.id));
                        assert(o.pending.dom().contains(x.id) && o.pending[x.id] == x);
                        assert(id_set(em2.drop_first()) =~= s_old.insert(x.id)) by {
                            assert(em2.drop_first() =~= em.drop_first().push(x));
                            assert forall|y: EventId| id_set(em2.drop_first()).contains(y) <==> s_old.insert(x.id).contains(y) by {
                                if id_set(em2.drop_first()).contains(y) {
                                    let j = choose|j: int| 0 <= j < em2.drop_first().len() && em2.drop_first()[j].id == y;
                                    if j < em.drop_first().len() {
                                        assert(em.drop_first()[j].id == y);
                                    }
                                }
                                if s_old.contains(y) {
                                    let j = choose|j: int| 0 <= j < em.drop_first().len() && em.drop_first()[j].id == y;
                                    assert(em2.drop_first()[j].id == y);
                                }
                                if y == x.id {
                                    assert(em2.drop_first()[em.drop_first().len() as int].id == y);
                                }
                            }
                        }
                        assert(o.pending.remove_keys(s_old.insert(x.id)) =~= o.pending.remove_keys(s_old).remove(x.id));
                        assert forall|i: int| 1 <= i < em2.len() && i < em.len() implies em2[i].id != x.id by {
                            assert(s_old.contains(em.drop_first()[i - 1].id));
                        }
                        assert forall|i: int| 0 <= i < em2.len() implies #[trigger] clock_le(em2[i].clock, replay_clock(o.clock, em2.take(i))) by {
                            if i < em.len() {
                                assert(em2.take(i) =~= em.take(i));
                                assert(clock_le(em[i].clock, replay_clock(o.clock, em.take(i))));
                            } else {
                                assert(em2.take(i) =~= em);
                            }
                        }
                    }
                },
            }
        }
        proof {
            let em = views(out@);
            use_type_invariant(&*self);
            assert forall|k: EventId| #[trigger] self@.pending.dom().contains(k) implies !clock_le(self@.pending[k].clock, self@.clock) by {
                let j = choose|j: int| 0 <= j < views(self.pending@).len() && views(self.pending@)[j].id == k;
                lemma_events_map_entry(views(self.pending@), j);
                assert(!clock_le(self.pending@[j].clock@, self@.clock));
            }
        }
        out
    }


    /// Every event in the log that does not precede `clock`, ordered by
    /// identifier: for each server, the events after the clock's entry for
    /// that server, or all of them if the clock has no entry for it.
    ///
    /// Given a remote server's clock, these are the events this server knows
    /// about and the remote one does not.
    pub fn get_since(&self, clock: &EventClock) -> (r: Vec<Event>)
        ensures
            sorted_by_id(views(r@)),
            forall|i: int| 0 <= i < r@.len() ==> #[trigger] self@.history.dom().contains(r@[i].id)
                && self@.history[r@[i].id] == r@[i]@ && after_clock(clock@, r@[i].id),
            forall|k: EventId| #[trigger] self@.history.dom().contains(k) && after_clock(clock@, k)
                ==> exists|i: int| 0 <= i < r@.len() && r@[i].id == k,
    {
        proof {
            use_type_invariant(self);
            lemma_sorted_distinct(views(self.history@));
        }
        let ghost h = views(self.history@);
        let mut out: Vec<Event> = Vec::new();
        let ghost mut src: Seq<int> = Seq::empty();
        let mut i: usize = 0;
        while i < self.history.len()
            invariant
                i <= self.history@.len(),
                h == views(self.history@),
                sorted_by_id(h),
                distinct_ids(h),
                sorted_by_id(views(out@)),
                src.len() == out@.len(),
                forall|j: int| 0 <= j < out@.len() ==> 0 <= #[trigger] src[j] < i && out@[j]@ == h[src[j]]
                    && after_clock(clock@, h[src[j]].id),
                forall|t: int| 0 <= t < i && after_clock(clock@, #[trigger] h[t].id)
                    ==> exists|j: int| 0 <= j < out@.len() && out@[j]@ == h[t],
            decreases self.history@.len() - i,
        {
            let id = self.history[i].id;
            let wanted = match clock.get(id.server) {
                Some(got) => got.precedes(&id),
                None => true,
            };
            if wanted {
                let ghost before = views(out@);
                let ghost old_out = out@;
                proof {
                    assert forall|j: int| 0 <= j < before.len() implies id_lt(before[j].id, h[i as int].id) by {
                        assert(out@[j]@ == before[j]);
                        assert(0 <= src[j] < i);
                    }
                }
                out.push(self.history[i].duplicate());
                proof {
                    src = src.push(i as int);
                    assert(views(out@) =~= before.push(h[i as int]));
                    assert forall|j: int| 0 <= j < out@.len() implies 0 <= #[trigger] src[j] < i + 1 && out@[j]@ == h[src[j]]
                        && after_clock(clock@, h[src[j]].id) by {
                        if j < old_out.len() {
                            assert(out@[j] == old_out[j]);
                        }
                    }
                    assert forall|t: int| 0 <= t < i + 1 && after_clock(clock@, #[trigger] h[t].id)
                        implies exists|j: int| 0 <= j < out@.len() && out@[j]@ == h[t] by {
                        if t == i {
                            assert(out@[out@.len() - 1]@ == h[t]);
                        } else {
                            let j = choose|j: int| 0 <= j < old_out.len() && old_out[j]@ == h[t];
                            assert(out@[j] == old_out[j]);
                        }
                    }
                }
            }
            i = i + 1;
        }
        proof {
            assert forall|j: int| 0 <= j < out@.len() implies #[trigger] self@.history.dom().contains(out@[j].id)
                && self@.history[out@[j].id] == out@[j]@ && after_clock(clock@, out@[j].id) by {
                assert(0 <= src[j] < h.len());
                lemma_events_map_entry(h, src[j]);
            }
            assert forall|k: EventId| #[trigger] self@.history.dom().contains(k) && after_clock(clock@, k)
                implies exists|j: int| 0 <= j < out@.len() && out@[j].id == k by {
                let t = choose|t: int| 0 <= t < h.len() && h[t].id == k;
                let j = choose|j: int| 0 <= j < out@.len() && out@[j]@ == h[t];
                assert(out@[j].id == k);
            }
        }
        out
    }

    /// The identifiers in `clock` (ordered by server) of events that are not
    /// in the log.
    pub fn missing_ids_for(&self, clock: &EventClock) -> (r: Vec<EventId>)
        ensures
            r@ == missing_from(clock.ids(), self@.history.dom()),
    {
        let n = clock.len();
        let mut out: Vec<EventId> = Vec::new();
        let mut i: usize = 0;
        while i < n
            invariant
                i <= n,
                n == clock.ids().len(),
                out@ == missing_from(clock.ids().take(i as int), self@.history.dom()),
            decreases n - i,
        {
            let id = clock.entry(i);
            proof {
                assert(clock.ids().take(i + 1).drop_last() =~= clock.ids().take(i as int));
            }
            if self.get(&id).is_none() {
                out.push(id);
            }
            i = i + 1;
        }
        proof {
            assert(clock.ids().take(n as int) =~= clock.ids());
        }
        out
    }

    /// Remove the events older than `threshold_timestamp`.
    pub fn prune_events_before(&mut self, threshold_timestamp: i64)
        ensures
            final(self)@ == (EventLogView {
                history: old(self)@.history.restrict(recent_ids(old(self)@.history, threshold_timestamp)),
                ..old(self)@
            }),
    {
        proof {
            use_type_invariant(&*self);
            lemma_sorted_distinct(views(self.history@));
        }
        let ghost o = self@;
        let mut h: Vec<Event> = Vec::new();
        std::mem::swap(&mut h, &mut self.history);
        let ghost hv = views(h@);
        let mut kept: Vec<Event> = Vec::new();
        let ghost mut src: Seq<int> = Seq::empty();
        let mut i: usize = 0;
        while i < h.len()
            invariant
                i <= h@.len(),
                hv == views(h@),
                sorted_by_id(hv),
                distinct_ids(hv),
                sorted_by_id(views(kept@)),
                src.len() == kept@.len(),
                forall|j: int| 0 <= j < kept@.len() ==> 0 <= #[trigger] src[j] < i && kept@[j]@ == hv[src[j]]
                    && hv[src[j]].timestamp >= threshold_timestamp,
                forall|t: int| 0 <= t < i && (#[trigger] hv[t]).timestamp >= threshold_timestamp
                    ==> exists|j: int| 0 <= j < kept@.len() && kept@[j]@ == hv[t],
            decreases h@.len() - i,
        {
            if h[i].timestamp >= threshold_timestamp {
                let ghost before = views(kept@);
                let ghost old_kept = kept@;
                proof {
                    assert forall|j: int| 0 <= j < before.len() implies id_lt(before[j].id, hv[i as int].id) by {
                        assert(kept@[j]@ == before[j]);
                        assert(0 <= src[j] < i);
                    }
                }
                kept.push(h[i].duplicate());
                proof {
                    src = src.push(i as int);
                    assert(views(kept@) =~= before.push(hv[i as int]));
                    assert forall|j: int| 0 <= j < kept@.len() implies 0 <= #[trigger] src[j] < i + 1 && kept@[j]@ == hv[src[j]]
                        && hv[src[j]].timestamp >= threshold_timestamp by {
                        if j < old_kept.len() {
                            assert(kept@[j] == old_kept[j]);
                        }
                    }
                    assert forall|t: int| 0 <= t < i + 1 && (#[trigger] hv[t]).timestamp >= threshold_timestamp
                        implies exists|j: int| 0 <= j < kept@.len() && kept@[j]@ == hv[t] by {
                        if t == i {
                            assert(kept@[kept@.len() - 1]@ == hv[t]);
                        } else {
                            let j = choose|j: int| 0 <= j < old_kept.len() && old_kept[j]@ == hv[t];
                            assert(kept@[j] == old_kept[j]);
                        }
                    }
                }
            }
            i = i + 1;
        }
        proof {
            let kv = views(kept@);
            lemma_sorted_distinct(kv);
            let want = o.history.restrict(recent_ids(o.history, threshold_timestamp));
            assert(events_map(kv) =~= want) by {
                assert forall|k: EventId| #[trigger] events_map(kv).dom().contains(k) <==> want.dom().contains(k) by {
                    if events_map(kv).dom().contains(k) {
                        let j = choose|j: int| 0 <= j < kv.len() && kv[j].id == k;
                        assert(kept@[j]@ == kv[j]);
                        assert(0 <= src[j] < hv.len());
                        lemma_events_map_entry(hv, src[j]);
                    }
                    if want.dom().contains(k) {
                        let t = choose|t: int| 0 <= t < hv.len() && hv[t].id == k;
                        lemma_events_map_entry(hv, t);
                        let j = choose|j: int| 0 <= j < kept@.len() && kept@[j]@ == hv[t];
                        assert(kv[j].id == k);
                    }
                }
                assert forall|k: EventId| #[trigger] events_map(kv).dom().contains(k) implies events_map(kv)[k] == want[k] by {
                    let j = choose|j: int| 0 <= j < kv.len() && kv[j].id == k;
                    lemma_events_map_entry(kv, j);
                    assert(kept@[j]@ == kv[j]);
                    assert(0 <= src[j] < hv.len());
                    lemma_events_map_entry(hv, src[j]);
                }
            }
        }
        self.history = kept;
    }

    /// Whether the identifier generator has issued its last identifier, so
    /// that no further event can be made.
    pub fn ids_exhausted(&self) -> (r: bool)
        ensures
            r == (self@.generator.last == u64::MAX),
    {
        self.id_gen.last == u64::MAX
    }

    /// Make the next event of this server: a fresh identifier, the given
    /// timestamp and payload, and the log's current clock as its dependencies.
    pub fn create_at(&mut self, timestamp: i64, payload: Vec<u8>) -> (r: Event)
        requires
            old(self)@.generator.last < u64::MAX,
        ensures
            r@ == (EventView {
                id: EventId { server: old(self)@.generator.server, epoch: old(self)@.generator.epoch, local: (old(self)@.generator.last + 1) as u64 },
                timestamp,
                clock: old(self)@.clock,
                payload: payload@,
            }),
            final(self)@ == (EventLogView {
                generator: EventIdGenerator { last: (old(self)@.generator.last + 1) as u64, ..old(self)@.generator },
                ..old(self)@
            }),
    {
        proof {
            use_type_invariant(&*self);
        }
        let mut g = self.id_gen;
        let id = g.next();
        self.id_gen = g;
        Event { id, timestamp, clock: self.last_event_clock.duplicate(), payload }
    }

    /// Make the next event of this server, timestamped with the current time
    /// (see [`create_at`](Self::create_at)).
    pub fn create(&mut self, payload: Vec<u8>) -> (r: Event)
        requires
            old(self)@.generator.last < u64::MAX,
        ensures
            r@.id == (EventId { server: old(self)@.generator.server, epoch: old(self)@.generator.epoch, local: (old(self)@.generator.last + 1) as u64 }),
            r@.clock == old(self)@.clock,
            r@.payload == payload@,
            final(self)@ == (EventLogView {
                generator: EventIdGenerator { last: (old(self)@.generator.last + 1) as u64, ..old(self)@.generator },
                ..old(self)@
            }),
    {
        let now = crate::time::now();
        self.create_at(now, payload)
    }

    /// Copies of every event in the log, ordered by identifier.
    pub fn all_events(&self) -> (r: Vec<Event>)
        ensures
            sorted_by_id(views(r@)),
            events_map(views(r@)) == self@.history,
    {
        proof {
            use_type_invariant(self);
        }
        let mut out: Vec<Event> = Vec::new();
        let mut i: usize = 0;
        while i < self.history.len()
            invariant
                i <= self.history@.len(),
                views(out@) == views(self.history@).take(i as int),
            decreases self.history@.len() - i,
        {
            let ghost prev = views(out@);
            out.push(self.history[i].duplicate());
            proof {
                assert(views(out@) =~= prev.push(self.history@[i as int]@));
                assert(views(self.history@).take(i + 1) =~= views(self.history@).take(i as int).push(self.history@[i as int]@));
            }
            i = i + 1;
        }
        proof {
            assert(views(out@) =~= views(self.history@));
        }
        out
    }

    /// Copies of the events waiting for their dependencies.
    pub fn pending_events(&self) -> (r: Vec<Event>)
        ensures
            distinct_ids(views(r@)),
            events_map(views(r@)) == self@.pending,
    {
        proof {
            use_type_invariant(self);
        }
        let mut out: Vec<Event> = Vec::new();
        let mut i: usize = 0;
        while i < self.pending.len()
            invariant
                i <= self.pending@.len(),
                views(out@) == views(self.pending@).take(i as int),
            decreases self.pending@.len() - i,
        {
            let ghost prev = views(out@);
            out.push(self.pending[i].duplicate());
            proof {
                assert(views(out@) =~= prev.push(self.pending@[i as int]@));
                assert(views(self.pending@).take(i + 1) =~= views(self.pending@).take(i as int).push(self.pending@[i as int]@));
            }
            i = i + 1;
        }
        proof {
            assert(views(out@) =~= views(self.pending@));
        }
        out
    }

    /// Statistics: the number of pending events and the current clock.
    pub fn get_stats(&self) -> (r: EventLogStats)
        ensures
            r.pending_events == self@.pending.len(),
            r.current_clock@ == self@.clock,
    {
        proof {
            use_type_invariant(self);
            lemma_events_map_len(views(self.pending@));
        }
        EventLogStats { pending_events: self.pending.len(), current_clock: self.last_event_clock.duplicate() }
    }
}


/// Inserting an event at its sorted position keeps the sequence sorted and
/// adds the event to the map.
pub proof fn lemma_sorted_insert(s: Seq<EventView>, i: int, e: EventView)
    requires
        sorted_by_id(s),
        0 <= i <= s.len(),
        forall|j: int| 0 <= j < i ==> id_lt(#[trigger] s[j].id, e.id),
        i < s.len() ==> id_lt(e.id, s[i].id),
    ensures
        sorted_by_id(s.insert(i, e)),
        events_map(s.insert(i, e)) == events_map(s).insert(e.id, e),
{
    let t = s.insert(i, e);
    assert forall|a: int, b: int| 0 <= a < b < t.len() implies id_lt(t[a].id, t[b].id) by {
        if b < i {
        } else if a < i && b == i {
        } else if a < i && b > i {
            assert(id_lt(s[a].id, e.id));
            if b - 1 > i {
                assert(id_lt(s[i].id, s[b - 1].id));
            }
        } else if a == i {
            if b - 1 > i {
                assert(id_lt(s[i].id, s[b - 1].id));
            }
        } else {
        }
    }
    lemma_sorted_distinct(s);
    lemma_sorted_distinct(t);
    assert(events_map(t) =~= events_map(s).insert(e.id, e)) by {
        assert forall|k: EventId| #[trigger] events_map(t).dom().contains(k) <==> events_map(s).insert(e.id, e).dom().contains(k) by {
            if events_map(t).dom().contains(k) {
                let j = choose|j: int| 0 <= j < t.len() && t[j].id == k;
                if j < i {
                    assert(s[j].id == k);
                } else if j > i {
                    assert(s[j - 1].id == k);
                }
            }
            if events_map(s).dom().contains(k) {
                let j = choose|j: int| 0 <= j < s.len() && s[j].id == k;
                if j < i {
                    assert(t[j].id == k);
                } else {
                    assert(t[j + 1].id == k);
                }
            }
            if k == e.id {
                assert(t[i].id == k);
            }
        }
        assert forall|k: EventId| #[trigger] events_map(t).dom().contains(k) implies events_map(t)[k] == events_map(s).insert(e.id, e)[k] by {
            let j = choose|j: int| 0 <= j < t.len() && t[j].id == k;
            lemma_events_map_entry(t, j);
            assert(t[i] == e);
            if j < i {
                assert(t[j].id != t[i].id);
                lemma_events_map_entry(s, j);
            } else if j > i {
                assert(t[j].id != t[i].id);
                lemma_events_map_entry(s, j - 1);
            }
        }
    }
}

/// Replacing an event by one with the same identifier keeps the sequence
/// sorted and replaces the map entry.
pub proof fn lemma_sorted_replace(s: Seq<EventView>, i: int, e: EventView)
    requires
        sorted_by_id(s),
        0 <= i < s.len(),
        s[i].id == e.id,
    ensures
        sorted_by_id(s.update(i, e)),
        events_map(s.update(i, e)) == events_map(s).insert(e.id, e),
{
    let t = s.update(i, e);
    assert(sorted_by_id(t)) by {
        assert forall|a: int, b: int| 0 <= a < b < t.len() implies id_lt(t[a].id, t[b].id) by {
            assert(id_lt(s[a].id, s[b].id));
        }
    }
    lemma_sorted_distinct(s);
    lemma_sorted_distinct(t);
    assert(events_map(t) =~= events_map(s).insert(e.id, e)) by {
        assert forall|k: EventId| #[trigger] events_map(t).dom().contains(k) <==> events_map(s).insert(e.id, e).dom().contains(k) by {
            if events_map(t).dom().contains(k) {
                let j = choose|j: int| 0 <= j < t.len() && t[j].id == k;
                assert(s[j].id == k);
            }
            if events_map(s).dom().contains(k) {
                let j = choose|j: int| 0 <= j < s.len() && s[j].id == k;
                assert(t[j].id == k);
            }
        }
        assert forall|k: EventId| #[trigger] events_map(t).dom().contains(k) implies events_map(t)[k] == events_map(s).insert(e.id, e)[k] by {
            let j = choose|j: int| 0 <= j < t.len() && t[j].id == k;
            lemma_events_map_entry(t, j);
            if j != i {
                lemma_events_map_entry(s, j);
            }
        }
    }
}


/// Removing one event from a sequence without repeated identifiers removes
/// its entry from the map.
pub proof fn lemma_events_map_remove(s: Seq<EventView>, k: int)
    requires
        distinct_ids(s),
        0 <= k < s.len(),
    ensures
        distinct_ids(s.remove(k)),
        events_map(s.remove(k)) == events_map(s).remove(s[k].id),
{
    let t = s.remove(k);
    assert(distinct_ids(t)) by {
        assert forall|a: int, b: int| 0 <= a < t.len() && 0 <= b < t.len() && a != b implies t[a].id != t[b].id by {
            let sa = if a < k { a } else { a + 1 };
            let sb = if b < k { b } else { b + 1 };
            assert(t[a] == s[sa] && t[b] == s[sb]);
        }
    }
    assert(events_map(t) =~= events_map(s).remove(s[k].id)) by {
        assert forall|x: EventId| #[trigger] events_map(t).dom().contains(x) <==> events_map(s).remove(s[k].id).dom().contains(x) by {
            if events_map(t).dom().contains(x) {
                let j = choose|j: int| 0 <= j < t.len() && t[j].id == x;
                let sj = if j < k { j } else { j + 1 };
                assert(s[sj].id == x);
                assert(sj != k);
            }
            if events_map(s).dom().contains(x) && x != s[k].id {
                let j = choose|j: int| 0 <= j < s.len() && s[j].id == x;
                if j < k {
                    assert(t[j].id == x);
                } else {
                    assert(t[j - 1].id == x);
                }
            }
        }
        assert forall|x: EventId| #[trigger] events_map(t).dom().contains(x) implies events_map(t)[x] == events_map(s).remove(s[k].id)[x] by {
            let j = choose|j: int| 0 <= j < t.len() && t[j].id == x;
            lemma_events_map_entry(t, j);
            let sj = if j < k { j } else { j + 1 };
            assert(t[j] == s[sj]);
            lemma_events_map_entry(s, sj);
        }
    }
}

/// Replacing an event by one with the same identifier replaces its map entry.
pub proof fn lemma_events_map_update(s: Seq<EventView>, i: int, e: EventView)
    requires
        distinct_ids(s),
        0 <= i < s.len(),
        s[i].id == e.id,
    ensures
        distinct_ids(s.update(i, e)),
        events_map(s.update(i, e)) == events_map(s).insert(e.id, e),
{
    let t = s.update(i, e);
    assert(distinct_ids(t)) by {
        assert forall|a: int, b: int| 0 <= a < t.len() && 0 <= b < t.len() && a != b implies t[a].id != t[b].id by {
            assert(s[a].id != s[b].id);
        }
    }
    assert(events_map(t) =~= events_map(s).insert(e.id, e)) by {
        assert forall|x: EventId| #[trigger] events_map(t).dom().contains(x) <==> events_map(s).insert(e.id, e).dom().contains(x) by {
            if events_map(t).dom().contains(x) {
                let j = choose|j: int| 0 <= j < t.len() && t[j].id == x;
                assert(s[j].id == x);
            }
            if events_map(s).dom().contains(x) {
                let j = choose|j: int| 0 <= j < s.len() && s[j].id == x;
                assert(t[j].id == x);
            }
        }
        assert forall|x: EventId| #[trigger] events_map(t).dom().contains(x) implies events_map(t)[x] == events_map(s).insert(e.id, e)[x] by {
            let j = choose|j: int| 0 <= j < t.len() && t[j].id == x;
            lemma_events_map_entry(t, j);
            if j != i {
                lemma_events_map_entry(s, j);
            }
        }
    }
}

/// Appending an event with a new identifier adds its map entry.
pub proof fn lemma_events_map_push(s: Seq<EventView>, e: EventView)
    requires
        distinct_ids(s),
        forall|j: int| 0 <= j < s.len() ==> s[j].id != e.id,
    ensures
        distinct_ids(s.push(e)),
        events_map(s.push(e)) == events_map(s).insert(e.id, e),
{
    let t = s.push(e);
    assert(events_map(t) =~= events_map(s).insert(e.id, e)) by {
        assert forall|x: EventId| #[trigger] events_map(t).dom().contains(x) <==> events_map(s).insert(e.id, e).dom().contains(x) by {
            if events_map(t).dom().contains(x) {
                let j = choose|j: int| 0 <= j < t.len() && t[j].id == x;
                if j < s.len() {
                    assert(s[j].id == x);
                }
            }
            if events_map(s).dom().contains(x) {
                let j = choose|j: int| 0 <= j < s.len() && s[j].id == x;
                assert(t[j].id == x);
            }
            if x == e.id {
                assert(t[s.len() as int].id == x);
            }
        }
        assert forall|x: EventId| #[trigger] events_map(t).dom().contains(x) implies events_map(t)[x] == events_map(s).insert(e.id, e)[x] by {
            let j = choose|j: int| 0 <= j < t.len() && t[j].id == x;
            lemma_events_map_entry(t, j);
            if j < s.len() {
                lemma_events_map_entry(s, j);
            }
        }
    }
}

/// The identifiers of `ids` that are not in `known`, in order.
pub open spec fn missing_from(ids: Seq<EventId>, known: Set<EventId>) -> Seq<EventId>
    decreases ids.len(),
{
    if ids.len() == 0 {
        Seq::empty()
    } else if known.contains(ids.last()) {
        missing_from(ids.drop_last(), known)
    } else {
        missing_from(ids.drop_last(), known).push(ids.last())
    }
}

/// The ids of the events that have a timestamp no earlier than `threshold`.
pub open spec fn recent_ids(h: Map<EventId, EventView>, threshold: i64) -> Set<EventId> {
    Set::new(|k: EventId| h.dom().contains(k) && h[k].timestamp >= threshold)
}

/// What [`EventLog::add`] does: `o` is the log before, `n` after, and
/// `emitted` the events that became ready, in the order they were processed.
pub open spec fn add_outcome(o: EventLogView, e: EventView, n: EventLogView, emitted: Seq<EventView>) -> bool {
    if o.history.dom().contains(e.id) {
        n == o && emitted.len() == 0
    } else if !clock_le(e.clock, o.clock) {
        n == (EventLogView { pending: o.pending.insert(e.id, e), ..o }) && emitted.len() == 0
    } else {
        &&& emitted.len() >= 1
        &&& emitted[0] == e
        &&& drained(o, n, emitted)
    }
}

/// The outcome of processing `emitted` from log `o`, the first one being the
/// newly arrived event and the others taken from `o`'s pending events, until
/// no pending event has its dependencies satisfied.
pub open spec fn drained(o: EventLogView, n: EventLogView, emitted: Seq<EventView>) -> bool {
    &&& causally_ready(o.clock, emitted)
    &&& n.clock == replay_clock(o.clock, emitted)
    &&& n.history == insert_all(o.history, emitted)
    &&& n.generator == o.generator
    &&& forall|i: int| 1 <= i < emitted.len() ==> #[trigger] o.pending.dom().contains(emitted[i].id)
        && o.pending[emitted[i].id] == emitted[i]
    &&& forall|i: int, j: int| 1 <= i < emitted.len() && 1 <= j < emitted.len() && i != j
        ==> emitted[i].id != emitted[j].id
    &&& n.pending == o.pending.remove_keys(id_set(emitted.drop_first()))
    &&& forall|k: EventId| #[trigger] n.pending.dom().contains(k) ==> !clock_le(n.pending[k].clock, n.clock)
}

/// The map of a sequence without repeated identifiers has one entry per event.
pub proof fn lemma_events_map_len(s: Seq<EventView>)
    requires
        distinct_ids(s),
    ensures
        events_map(s).dom().finite(),
        events_map(s).len() == s.len(),
    decreases s.len(),
{
    if s.len() == 0 {
        assert(events_map(s).dom() =~= Set::<EventId>::empty());
    } else {
        let t = s.drop_last();
        assert(distinct_ids(t));
        lemma_events_map_len(t);
        assert(events_map(s).dom() =~= events_map(t).dom().insert(s.last().id)) by {
            assert forall|k: EventId| events_map(s).dom().contains(k) implies events_map(t).dom().contains(k) || k == s.last().id by {
                let i = choose|i: int| 0 <= i < s.len() && s[i].id == k;
                if i < s.len() - 1 {
                    assert(t[i].id == k);
                }
            }
            assert forall|k: EventId| events_map(t).dom().contains(k) implies events_map(s).dom().contains(k) by {
                let i = choose|i: int| 0 <= i < t.len() && t[i].id == k;
                assert(s[i].id == k);
            }
            assert(s[s.len() - 1].id == s.last().id);
        }
        assert(!events_map(t).dom().contains(s.last().id)) by {
            if events_map(t).dom().contains(s.last().id) {
                let i = choose|i: int| 0 <= i < t.len() && t[i].id == s.last().id;
                assert(s[i].id == s[s.len() - 1].id);
            }
        }
    }
}

/// Every pending event of the log is still waiting for a dependency.
pub open spec fn settled(l: EventLogView) -> bool {
    forall|k: EventId| #[trigger] l.pending.dom().contains(k) ==> !clock_le(l.pending[k].clock, l.clock)
}

/// No event is both in the history and pending.
pub open spec fn history_pending_disjoint(l: EventLogView) -> bool {
    forall|k: EventId| #[trigger] l.pending.dom().contains(k) ==> !l.history.dom().contains(k)
}

pub proof fn lemma_insert_all_dom(m: Map<EventId, EventView>, evs: Seq<EventView>)
    ensures
        insert_all(m, evs).dom() == m.dom().union(id_set(evs)),
    decreases evs.len(),
{
    if evs.len() == 0 {
        assert(id_set(evs) =~= Set::<EventId>::empty());
        assert(m.dom().union(id_set(evs)) =~= m.dom());
    } else {
        let t = evs.drop_last();
        lemma_insert_all_dom(m, t);
        assert(id_set(evs) =~= id_set(t).insert(evs.last().id)) by {
            assert forall|k: EventId| id_set(evs).contains(k) <==> id_set(t).insert(evs.last().id).contains(k) by {
                if id_set(evs).contains(k) {
                    let i = choose|i: int| 0 <= i < evs.len() && evs[i].id == k;
                    if i < t.len() {
                        assert(t[i].id == k);
                    }
                }
                if id_set(t).contains(k) {
                    let i = choose|i: int| 0 <= i < t.len() && t[i].id == k;
                    assert(evs[i].id == k);
                }
                if k == evs.last().id {
                    assert(evs[evs.len() - 1].id == k);
                }
            }
        }
        assert(insert_all(m, evs).dom() =~= m.dom().union(id_set(evs)));
    }
}

/// `e` is the event made from log `o`, which became `n`: it has the next
/// identifier of the log's generator, and the generator has moved past it.
pub open spec fn created(o: EventLogView, e: EventView, n: EventLogView) -> bool {
    &&& e.id == (EventId { server: o.generator.server, epoch: o.generator.epoch, local: (o.generator.last + 1) as u64 })
    &&& n.generator == (EventIdGenerator { last: (o.generator.last + 1) as u64, ..o.generator })
}

/// Events made one after the other by the same log have increasing
/// identifiers, so no identifier is issued twice.
pub proof fn law_created_ids_increase(o: EventLogView, e1: EventView, m: EventLogView, e2: EventView, n: EventLogView)
    requires
        o.generator.last < u64::MAX,
        created(o, e1, m),
        m.generator.last < u64::MAX,
        created(m, e2, n),
    ensures
        id_lt(e1.id, e2.id),
        e1.id != e2.id,
{
}

/// No event is processed twice: when identifiers identify events, and the
/// log is settled (every pending event still lacks a dependency) with no
/// event both pending and in the history, then adding an event processes
/// events none of which was already in the history and no two of which
/// share an identifier, and the log is left settled with its history and
/// pending events still apart.
pub proof fn law_each_event_processed_once(o: EventLogView, e: EventView, n: EventLogView, emitted: Seq<EventView>)
    requires
        add_outcome(o, e, n, emitted),
        settled(o),
        history_pending_disjoint(o),
        o.pending.dom().contains(e.id) ==> o.pending[e.id] == e,
    ensures
        forall|i: int, j: int| 0 <= i < j < emitted.len() ==> emitted[i].id != emitted[j].id,
        forall|i: int| 0 <= i < emitted.len() ==> !o.history.dom().contains(#[trigger] emitted[i].id),
        settled(n),
        history_pending_disjoint(n),
{
    if o.history.dom().contains(e.id) {
    } else if !clock_le(e.clock, o.clock) {
        assert forall|k: EventId| #[trigger] n.pending.dom().contains(k) implies !clock_le(n.pending[k].clock, n.clock) by {
            if k != e.id {
                assert(o.pending.dom().contains(k));
            }
        }
    } else {
        assert(!o.pending.dom().contains(e.id));
        assert forall|i: int, j: int| 0 <= i < j < emitted.len() implies emitted[i].id != emitted[j].id by {
            assert(o.pending.dom().contains(emitted[j].id));
        }
        assert forall|i: int| 0 <= i < emitted.len() implies !o.history.dom().contains(#[trigger] emitted[i].id) by {
            if i > 0 {
                assert(o.pending.dom().contains(emitted[i].id));
            }
        }
        lemma_insert_all_dom(o.history, emitted);
        assert forall|k: EventId| #[trigger] n.pending.dom().contains(k) implies !n.history.dom().contains(k) by {
            assert(o.pending.dom().contains(k));
            assert(!id_set(emitted.drop_first()).contains(k));
            if id_set(emitted).contains(k) {
                let i = choose|i: int| 0 <= i < emitted.len() && emitted[i].id == k;
                if i > 0 {
                    assert(emitted.drop_first()[i - 1].id == k);
                }
            }
        }
    }
}

/// No event is lost: after adding `e`, every event that was in the history
/// or pending, and `e` itself, is in the history or pending.
pub proof fn law_no_event_lost(o: EventLogView, e: EventView, n: EventLogView, emitted: Seq<EventView>)
    requires
        add_outcome(o, e, n, emitted),
    ensures
        forall|k: EventId| #[trigger] o.history.dom().contains(k) || o.pending.dom().contains(k) || k == e.id
            ==> n.history.dom().contains(k) || n.pending.dom().contains(k),
{
    if !o.history.dom().contains(e.id) && clock_le(e.clock, o.clock) {
        lemma_insert_all_dom(o.history, emitted);
        assert forall|k: EventId| #[trigger] o.history.dom().contains(k) || o.pending.dom().contains(k) || k == e.id
            implies n.history.dom().contains(k) || n.pending.dom().contains(k) by {
            if k == e.id {
                assert(emitted[0].id == k);
            } else if o.pending.dom().contains(k) && id_set(emitted.drop_first()).contains(k) {
                let i = choose|i: int| 0 <= i < emitted.drop_first().len() && emitted.drop_first()[i].id == k;
                assert(emitted[i + 1].id == k);
            }
        }
    }
}

/// No two events of `s` share an identifier unless they are the same event.
pub open spec fn ids_identify(s: Seq<EventView>) -> bool {
    forall|a: int, b: int| 0 <= a < s.len() && 0 <= b < s.len() && #[trigger] s[a].id == #[trigger] s[b].id
        ==> s[a] == s[b]
}

/// Every pending event of `l` is filed under its own identifier and is one
/// of the events of `added`.
pub open spec fn pending_from(l: EventLogView, added: Seq<EventView>) -> bool {
    forall|k: EventId| #[trigger] l.pending.dom().contains(k) ==> l.pending[k].id == k && added.contains(l.pending[k])
}

/// `states` are the views of a log along a run of additions: each
/// `states[i + 1]` is `states[i]` after adding `added[i]`, which made the
/// events `emitted[i]` ready.
pub open spec fn add_run(states: Seq<EventLogView>, added: Seq<EventView>, emitted: Seq<Seq<EventView>>) -> bool {
    &&& states.len() == added.len() + 1
    &&& emitted.len() == added.len()
    &&& forall|i: int| 0 <= i < added.len() ==> #[trigger] add_outcome(states[i], added[i], states[i + 1], emitted[i])
}

/// One step of a run keeps the log settled, its history and pending events
/// apart, and its pending events drawn from what was added; the history only
/// grows, and takes in every event made ready.
proof fn lemma_add_step(o: EventLogView, e: EventView, n: EventLogView, emitted: Seq<EventView>, prior: Seq<EventView>)
    requires
        add_outcome(o, e, n, emitted),
        settled(o),
        history_pending_disjoint(o),
        pending_from(o, prior),
        ids_identify(prior.push(e)),
    ensures
        settled(n),
        history_pending_disjoint(n),
        pending_from(n, prior.push(e)),
        forall|i: int, j: int| 0 <= i < j < emitted.len() ==> emitted[i].id != emitted[j].id,
        forall|i: int| 0 <= i < emitted.len() ==> !o.history.dom().contains(#[trigger] emitted[i].id),
        forall|i: int| 0 <= i < emitted.len() ==> n.history.dom().contains(#[trigger] emitted[i].id),
        forall|k: EventId| o.history.dom().contains(k) ==> #[trigger] n.history.dom().contains(k),
        causally_ready(o.clock, emitted),
{
    let q = prior.push(e);
    assert(q[q.len() - 1] == e);
    if o.pending.dom().contains(e.id) {
        let x = o.pending[e.id];
        assert(prior.contains(x));
        let j = choose|j: int| 0 <= j < prior.len() && prior[j] == x;
        assert(q[j] == x);
        assert(q[j].id == q[q.len() - 1].id);
    }
    law_each_event_processed_once(o, e, n, emitted);
    assert forall|k: EventId| #[trigger] n.pending.dom().contains(k) implies n.pending[k].id == k && q.contains(n.pending[k]) by {
        if o.pending.dom().contains(k) && n.pending[k] == o.pending[k] {
            let j = choose|j: int| 0 <= j < prior.len() && prior[j] == o.pending[k];
            assert(q[j] == o.pending[k]);
        } else {
            assert(q[q.len() - 1] == n.pending[k]);
        }
    }
    if !o.history.dom().contains(e.id) && clock_le(e.clock, o.clock) {
        lemma_insert_all_dom(o.history, emitted);
        assert forall|i: int| 0 <= i < emitted.len() implies n.history.dom().contains(#[trigger] emitted[i].id) by {
            assert(id_set(emitted).contains(emitted[i].id));
        }
    }
}

/// Over any run of additions to a log that starts with no pending events
/// (as [`EventLog::new`] and [`EventLog::restore`] leave it, whatever clock
/// [`EventLog::set_clock`] gave it before the first addition), where an
/// identifier always names the same event: after every addition no pending
/// event has its dependencies satisfied and no event is both in the history
/// and pending; no event is made ready twice, nor one that was in the
/// history at the start; and each event made ready had its dependencies
/// recorded in the log's clock at the moment it was processed.
pub proof fn law_run_processes_each_event_once(states: Seq<EventLogView>, added: Seq<EventView>, emitted: Seq<Seq<EventView>>)
    requires
        add_run(states, added, emitted),
        states[0].pending == Map::<EventId, EventView>::empty(),
        ids_identify(added),
    ensures
        forall|i: int| 0 <= i < states.len() ==> settled(#[trigger] states[i]) && history_pending_disjoint(states[i]),
        forall|i: int, a: int, j: int, b: int|
            0 <= i < emitted.len() && 0 <= a < emitted[i].len() && 0 <= j < emitted.len() && 0 <= b < emitted[j].len()
            && (i != j || a != b) ==> #[trigger] emitted[i][a].id != #[trigger] emitted[j][b].id,
        forall|i: int, a: int| 0 <= i < emitted.len() && 0 <= a < emitted[i].len()
            ==> !states[0].history.dom().contains(#[trigger] emitted[i][a].id),
        forall|i: int, a: int| 0 <= i < emitted.len() && 0 <= a < emitted[i].len()
            ==> clock_le(#[trigger] emitted[i][a].clock, replay_clock(states[i].clock, emitted[i].take(a))),
{
    lemma_run_prefix(states, added, emitted, added.len() as int);
    assert forall|i: int, a: int| 0 <= i < emitted.len() && 0 <= a < emitted[i].len()
        implies clock_le(#[trigger] emitted[i][a].clock, replay_clock(states[i].clock, emitted[i].take(a))) by {
        assert(add_outcome(states[i], added[i], states[i + 1], emitted[i]));
        if states[i].history.dom().contains(added[i].id) || !clock_le(added[i].clock, states[i].clock) {
            assert(emitted[i].len() == 0);
        }
    }
}

/// The run's properties over its first `k` additions.
proof fn lemma_run_prefix(states: Seq<EventLogView>, added: Seq<EventView>, emitted: Seq<Seq<EventView>>, k: int)
    requires
        add_run(states, added, emitted),
        states[0].pending == Map::<EventId, EventView>::empty(),
        ids_identify(added),
        0 <= k <= added.len(),
    ensures
        forall|i: int| 0 <= i <= k ==> settled(#[trigger] states[i]) && history_pending_disjoint(states[i]),
        pending_from(states[k], added.take(k)),
        forall|x: EventId| states[0].history.dom().contains(x) ==> #[trigger] states[k].history.dom().contains(x),
        forall|i: int, a: int| 0 <= i < k && 0 <= a < emitted[i].len()
            ==> states[k].history.dom().contains(#[trigger] emitted[i][a].id),
        forall|i: int, a: int, j: int, b: int|
            0 <= i < k && 0 <= a < emitted[i].len() && 0 <= j < k && 0 <= b < emitted[j].len()
            && (i != j || a != b) ==> #[trigger] emitted[i][a].id != #[trigger] emitted[j][b].id,
        forall|i: int, a: int| 0 <= i < k && 0 <= a < emitted[i].len()
            ==> !states[0].history.dom().contains(#[trigger] emitted[i][a].id),
    decreases k,
{
    if k == 0 {
        assert(settled(states[0]));
        assert(history_pending_disjoint(states[0]));
    } else {
        let m = k - 1;
        lemma_run_prefix(states, added, emitted, m);
        let o = states[m];
        let n = states[k];
        let out = emitted[m];
        assert(add_outcome(states[m], added[m], states[m + 1], emitted[m]));
        assert(states[m + 1] == n);
        assert(added.take(m).push(added[m]) =~= added.take(k));
        assert(ids_identify(added.take(k))) by {
            assert forall|a: int, b: int| 0 <= a < added.take(k).len() && 0 <= b < added.take(k).len()
                && #[trigger] added.take(k)[a].id == #[trigger] added.take(k)[b].id
                implies added.take(k)[a] == added.take(k)[b] by {
                assert(added.take(k)[a] == added[a]);
                assert(added.take(k)[b] == added[b]);
            }
        }
        lemma_add_step(o, added[m], n, out, added.take(m));
        assert forall|i: int, a: int, j: int, b: int|
            0 <= i < k && 0 <= a < emitted[i].len() && 0 <= j < k && 0 <= b < emitted[j].len()
            && (i != j || a != b) implies #[trigger] emitted[i][a].id != #[trigger] emitted[j][b].id by {
            if i == m && j == m {
                if a < b {
                    assert(out[a].id != out[b].id);
                } else {
                    assert(out[b].id != out[a].id);
                }
            } else if i == m {
                assert(o.history.dom().contains(emitted[j][b].id));
                assert(!o.history.dom().contains(out[a].id));
            } else if j == m {
                assert(o.history.dom().contains(emitted[i][a].id));
                assert(!o.history.dom().contains(out[b].id));
            }
        }
        assert forall|i: int, a: int| 0 <= i < k && 0 <= a < emitted[i].len()
            implies !states[0].history.dom().contains(#[trigger] emitted[i][a].id) by {
            if i == m {
                assert(!o.history.dom().contains(out[a].id));
            }
        }
        assert forall|i: int, a: int| 0 <= i < k && 0 <= a < emitted[i].len()
            implies n.history.dom().contains(#[trigger] emitted[i][a].id) by {
            if i < m {
                assert(o.history.dom().contains(emitted[i][a].id));
            }
        }
        assert forall|i: int| 0 <= i <= k implies settled(#[trigger] states[i]) && history_pending_disjoint(states[i]) by {
            if i == k {
            }
        }
    }
}

/// Every entry of the history `h` is either the entry that `h0` holds under
/// its identifier, or an event of `added` filed under its own identifier.
pub open spec fn history_drawn_from(h: Map<EventId, EventView>, h0: Map<EventId, EventView>, added: Seq<EventView>) -> bool {
    forall|k: EventId| #[trigger] h.dom().contains(k) ==>
        (h0.dom().contains(k) && h[k] == h0[k]) || (h[k].id == k && added.contains(h[k]))
}

/// Inserting events that are each drawn from `added` keeps a history drawn
/// from `h0` and `added`.
proof fn lemma_insert_all_drawn(m: Map<EventId, EventView>, evs: Seq<EventView>, h0: Map<EventId, EventView>, added: Seq<EventView>)
    requires
        history_drawn_from(m, h0, added),
        forall|i: int| 0 <= i < evs.len() ==> added.contains(#[trigger] evs[i]),
    ensures
        history_drawn_from(insert_all(m, evs), h0, added),
    decreases evs.len(),
{
    if evs.len() > 0 {
        let t = evs.drop_last();
        assert forall|i: int| 0 <= i < t.len() implies added.contains(#[trigger] t[i]) by {
            assert(t[i] == evs[i]);
        }
        lemma_insert_all_drawn(m, t, h0, added);
        assert(added.contains(evs[evs.len() - 1]));
    }
}

/// Over the first `k` additions of a run, no added event is lost, and the
/// history stays drawn from the starting history and the added events.
proof fn lemma_run_keeps_events(states: Seq<EventLogView>, added: Seq<EventView>, emitted: Seq<Seq<EventView>>, k: int)
    requires
        add_run(states, added, emitted),
        states[0].pending == Map::<EventId, EventView>::empty(),
        ids_identify(added),
        0 <= k <= added.len(),
    ensures
        forall|x: EventId| #[trigger] states[0].history.dom().contains(x)
            ==> states[k].history.dom().contains(x) || states[k].pending.dom().contains(x),
        forall|i: int| 0 <= i < k ==> states[k].history.dom().contains(#[trigger] added[i].id)
            || states[k].pending.dom().contains(added[i].id),
        history_drawn_from(states[k].history, states[0].history, added),
    decreases k,
{
    if k == 0 {
    } else {
        let m = k - 1;
        lemma_run_keeps_events(states, added, emitted, m);
        lemma_run_prefix(states, added, emitted, m);
        let o = states[m];
        let n = states[k];
        let e = added[m];
        let out = emitted[m];
        assert(add_outcome(states[m], added[m], states[m + 1], emitted[m]));
        assert(states[m + 1] == n);
        law_no_event_lost(o, e, n, out);
        assert forall|x: EventId| #[trigger] states[0].history.dom().contains(x)
            implies n.history.dom().contains(x) || n.pending.dom().contains(x) by {
            assert(o.history.dom().contains(x) || o.pending.dom().contains(x));
        }
        assert forall|i: int| 0 <= i < k implies n.history.dom().contains(#[trigger] added[i].id)
            || n.pending.dom().contains(added[i].id) by {
            if i < m {
                assert(o.history.dom().contains(added[i].id) || o.pending.dom().contains(added[i].id));
            }
        }
        assert(added.contains(e)) by {
            assert(added[m] == e);
        }
        if !o.history.dom().contains(e.id) && clock_le(e.clock, o.clock) {
            assert forall|i: int| 0 <= i < out.len() implies added.contains(#[trigger] out[i]) by {
                if i > 0 {
                    assert(o.pending.dom().contains(out[i].id));
                    let x = out[i].id;
                    assert(o.pending[x] == out[i]);
                    assert(added.take(m).contains(o.pending[x]));
                    let j = choose|j: int| 0 <= j < added.take(m).len() && added.take(m)[j] == o.pending[x];
                    assert(added[j] == out[i]);
                }
            }
            lemma_insert_all_drawn(o.history, out, states[0].history, added);
        }
    }
}

/// Two runs of additions from the same log, with no pending events, that
/// add the same events in any order and with any repetitions, where an
/// identifier always names the same event and no added event differs from
/// the start's history entry under its identifier: when neither run leaves
/// an event pending, both leave the same history. (The clocks can differ:
/// two events of one server with no dependencies, added in either order, leave
/// either identifier as that server's latest.)
pub proof fn law_history_independent_of_order(
    s1: Seq<EventLogView>, a1: Seq<EventView>, e1: Seq<Seq<EventView>>,
    s2: Seq<EventLogView>, a2: Seq<EventView>, e2: Seq<Seq<EventView>>,
)
    requires
        add_run(s1, a1, e1),
        add_run(s2, a2, e2),
        s1[0] == s2[0],
        s1[0].pending == Map::<EventId, EventView>::empty(),
        a1.to_set() == a2.to_set(),
        ids_identify(a1),
        ids_identify(a2),
        forall|i: int| 0 <= i < a1.len() && s1[0].history.dom().contains(#[trigger] a1[i].id)
            ==> s1[0].history[a1[i].id] == a1[i],
        s1.last().pending == Map::<EventId, EventView>::empty(),
        s2.last().pending == Map::<EventId, EventView>::empty(),
    ensures
        s1.last().history == s2.last().history,
{
    let h0 = s1[0].history;
    lemma_run_keeps_events(s1, a1, e1, a1.len() as int);
    lemma_run_keeps_events(s2, a2, e2, a2.len() as int);
    let h1 = s1.last().history;
    let h2 = s2.last().history;
    assert(s1.last() == s1[a1.len() as int]);
    assert(s2.last() == s2[a2.len() as int]);
    // Each final history holds exactly the start's entries and the added
    // events, each under its identifier.
    assert forall|k: EventId| #[trigger] h1.dom().contains(k) == h2.dom().contains(k) by {
        if h1.dom().contains(k) && !h0.dom().contains(k) {
            let j = choose|j: int| 0 <= j < a1.len() && a1[j] == h1[k];
            assert(a1.to_set().contains(a1[j]));
            assert(a2.to_set().contains(a1[j]));
            let j2 = choose|j2: int| 0 <= j2 < a2.len() && a2[j2] == a1[j];
            assert(h2.dom().contains(a2[j2].id));
        }
        if h2.dom().contains(k) && !h0.dom().contains(k) {
            let j = choose|j: int| 0 <= j < a2.len() && a2[j] == h2[k];
            assert(a2.to_set().contains(a2[j]));
            assert(a1.to_set().contains(a2[j]));
            let j1 = choose|j1: int| 0 <= j1 < a1.len() && a1[j1] == a2[j];
            assert(h1.dom().contains(a1[j1].id));
        }
    }
    assert forall|k: EventId| h1.dom().contains(k) implies #[trigger] h1[k] == h2[k] by {
        assert(h2.dom().contains(k));
        if h0.dom().contains(k) {
            if !(h1[k] == h0[k]) {
                let j = choose|j: int| 0 <= j < a1.len() && a1[j] == h1[k];
                assert(h0[a1[j].id] == a1[j]);
            }
            if !(h2[k] == h0[k]) {
                let j = choose|j: int| 0 <= j < a2.len() && a2[j] == h2[k];
                assert(a1.to_set().contains(a2[j])) by {
                    assert(a2.to_set().contains(a2[j]));
                }
                let j1 = choose|j1: int| 0 <= j1 < a1.len() && a1[j1] == a2[j];
                assert(h0[a1[j1].id] == a1[j1]);
            }
        } else {
            let j = choose|j: int| 0 <= j < a1.len() && a1[j] == h1[k];
            let i = choose|i: int| 0 <= i < a2.len() && a2[i] == h2[k];
            assert(a2.to_set().contains(a1[j])) by {
                assert(a1.to_set().contains(a1[j]));
            }
            let j2 = choose|j2: int| 0 <= j2 < a2.len() && a2[j2] == a1[j];
            assert(a2[j2].id == a2[i].id);
        }
    }
    assert(h1 =~= h2);
}

/// The identifiers missing from what is known are those of `ids` that are
/// not known, and only those, in their order in `ids`: none is added and
/// none left out.
pub proof fn law_missing_ids(ids: Seq<EventId>, known: Set<EventId>)
    ensures
        forall|x: EventId| #[trigger] missing_from(ids, known).contains(x) <==> (ids.contains(x) && !known.contains(x)),
        missing_from(ids, known).len() <= ids.len(),
        missing_from(ids, known).len() == ids.len() <==> forall|i: int| 0 <= i < ids.len() ==> !known.contains(#[trigger] ids[i]),
    decreases ids.len(),
{
    if ids.len() > 0 {
        let t = ids.drop_last();
        law_missing_ids(t, known);
        let m = missing_from(ids, known);
        let q = missing_from(t, known);
        assert(m == (if known.contains(ids.last()) { q } else { q.push(ids.last()) }));
        assert forall|x: EventId| #[trigger] m.contains(x) <==> (ids.contains(x) && !known.contains(x)) by {
            if m.contains(x) {
                let k = choose|k: int| 0 <= k < m.len() && m[k] == x;
                if k < q.len() {
                    assert(q[k] == x);
                    assert(q.contains(x));
                    let j = choose|j: int| 0 <= j < t.len() && t[j] == x;
                    assert(ids[j] == x);
                } else {
                    assert(ids[ids.len() - 1] == x);
                }
            }
            if ids.contains(x) && !known.contains(x) {
                let j = choose|j: int| 0 <= j < ids.len() && ids[j] == x;
                if j < t.len() {
                    assert(t[j] == x);
                    assert(t.contains(x));
                    assert(q.contains(x));
                    let k = choose|k: int| 0 <= k < q.len() && q[k] == x;
                    assert(m[k] == x);
                } else {
                    assert(m[m.len() - 1] == x);
                }
            }
        }
        assert((forall|i: int| 0 <= i < ids.len() ==> !known.contains(#[trigger] ids[i]))
            <==> ((forall|i: int| 0 <= i < t.len() ==> !known.contains(#[trigger] t[i])) && !known.contains(ids.last()))) by {
            if forall|i: int| 0 <= i < ids.len() ==> !known.contains(#[trigger] ids[i]) {
                assert forall|i: int| 0 <= i < t.len() implies !known.contains(#[trigger] t[i]) by {
                    assert(t[i] == ids[i]);
                }
                assert(ids[ids.len() - 1] == ids.last());
            }
            if (forall|i: int| 0 <= i < t.len() ==> !known.contains(#[trigger] t[i])) && !known.contains(ids.last()) {
                assert forall|i: int| 0 <= i < ids.len() implies !known.contains(#[trigger] ids[i]) by {
                    if i < t.len() {
                        assert(t[i] == ids[i]);
                    }
                }
            }
        }
    }
}

} // verus!
