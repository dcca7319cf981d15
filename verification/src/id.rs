//! Identifiers for servers and events, and the event clock that records
//! which events a server has already processed.

use vstd::prelude::*;

verus! {

/// Identifies a server node in the network.
#[derive(Clone, Copy, Debug, PartialEq, Eq, Structural)]
pub struct ServerId(pub u16);

/// Distinguishes successive runs of the same server; unique per server.
#[derive(Clone, Copy, Debug, PartialEq, Eq, Structural)]
pub struct EpochId(pub i64);

/// Globally unique identifier of an event: the emitting server, its epoch,
/// and a sequence number local to that server and epoch.
#[derive(Clone, Copy, Debug, PartialEq, Eq, Structural)]
pub struct EventId {
    pub server: ServerId,
    pub epoch: EpochId,
    pub local: u64,
}

/// The parts of an object identifier: the server and epoch that created
/// the object, and a sequence number local to them.
#[derive(Clone, Copy, Debug, PartialEq, Eq, Structural)]
pub struct ObjectIdParts {
    pub server: ServerId,
    pub epoch: EpochId,
    pub local: u64,
}

/// Identifies a user.
#[derive(Clone, Copy, Debug, PartialEq, Eq, Structural)]
pub struct UserId(pub ObjectIdParts);

/// Identifies a channel.
#[derive(Clone, Copy, Debug, PartialEq, Eq, Structural)]
pub struct ChannelId(pub ObjectIdParts);

/// Identifies a registered account.
#[derive(Clone, Copy, Debug, PartialEq, Eq, Structural)]
pub struct AccountId(pub ObjectIdParts);

/// Identifies a channel registration.
#[derive(Clone, Copy, Debug, PartialEq, Eq, Structural)]
pub struct ChannelRegistrationId(pub ObjectIdParts);

/// Identifies a role defined on a registered channel.
#[derive(Clone, Copy, Debug, PartialEq, Eq, Structural)]
pub struct ChannelRoleId(pub ObjectIdParts);

/// Identifies an account's access entry on a registered channel.
#[derive(Clone, Copy, Debug, PartialEq, Eq, Structural)]
pub struct ChannelAccessId(pub AccountId, pub ChannelRegistrationId);

/// Identifies a SASL authentication session.
#[derive(Clone, Copy, Debug, PartialEq, Eq, Structural)]
pub struct SaslSessionId(pub ObjectIdParts);

/// Identifies an entry in the network history log.
#[derive(Clone, Copy, Debug, PartialEq, Eq, Structural)]
pub struct LogEntryId(pub u64);

/// `a` strictly precedes `b` in the order of event identifiers: by server,
/// then by epoch, then by local sequence number.
pub open spec fn id_lt(a: EventId, b: EventId) -> bool {
    ||| a.server.0 < b.server.0
    ||| (a.server.0 == b.server.0 && a.epoch.0 < b.epoch.0)
    ||| (a.server.0 == b.server.0 && a.epoch.0 == b.epoch.0 && a.local < b.local)
}

/// `a` precedes or equals `b`.
pub open spec fn id_le(a: EventId, b: EventId) -> bool {
    id_lt(a, b) || a == b
}

impl EventId {
    pub fn new(server: ServerId, epoch: EpochId, local: u64) -> (r: EventId)
        ensures
            r.server == server,
            r.epoch == epoch,
            r.local == local,
    {
        EventId { server, epoch, local }
    }

    /// The server that emitted this event.
    pub fn server(&self) -> (r: ServerId)
        ensures
            r == self.server,
    {
        self.server
    }

    /// Whether this identifier strictly precedes `other`.
    pub fn precedes(&self, other: &EventId) -> (r: bool)
        ensures
            r == id_lt(*self, *other),
    {
        if self.server.0 != other.server.0 {
            self.server.0 < other.server.0
        } else if self.epoch.0 != other.epoch.0 {
            self.epoch.0 < other.epoch.0
        } else {
            self.local < other.local
        }
    }

    /// Whether two identifiers are the same.
    pub fn same_as(&self, other: &EventId) -> (r: bool)
        ensures
            r == (*self == *other),
    {
        self.server.0 == other.server.0 && self.epoch.0 == other.epoch.0 && self.local
            == other.local
    }
}


/// The servers of `s` strictly increase along the sequence.
pub open spec fn sorted_by_server(s: Seq<EventId>) -> bool {
    forall|i: int, j: int| 0 <= i < j < s.len() ==> s[i].server.0 < s[j].server.0
}

/// The map from server to event identifier held by a sequence of entries.
pub open spec fn map_of(s: Seq<EventId>) -> Map<ServerId, EventId> {
    Map::new(
        |k: ServerId| exists|i: int| 0 <= i < s.len() && s[i].server == k,
        |k: ServerId| s[choose|i: int| 0 <= i < s.len() && s[i].server == k],
    )
}

/// Clock `a` is covered by clock `b`: every server that `a` mentions is in
/// `b`, with an event identifier at least as late.
pub open spec fn clock_le(a: Map<ServerId, EventId>, b: Map<ServerId, EventId>) -> bool {
    forall|s: ServerId| #[trigger] a.dom().contains(s) ==> b.dom().contains(s) && id_le(a[s], b[s])
}

/// Clock coverage is a preorder: every clock covers itself, and covering
/// is transitive, so dependencies satisfied by a clock stay satisfied by
/// any clock covering it.
pub proof fn law_clock_le_preorder(a: Map<ServerId, EventId>, b: Map<ServerId, EventId>, c: Map<ServerId, EventId>)
    ensures
        clock_le(a, a),
        clock_le(a, b) && clock_le(b, c) ==> clock_le(a, c),
{
    if clock_le(a, b) && clock_le(b, c) {
        assert forall|s: ServerId| #[trigger] a.dom().contains(s) implies c.dom().contains(s) && id_le(a[s], c[s]) by {
            assert(b.dom().contains(s));
        }
    }
}

/// In a sequence sorted by server, an entry is the map's value for its server.
pub proof fn lemma_map_of_entry(s: Seq<EventId>, i: int)
    requires
        sorted_by_server(s),
        0 <= i < s.len(),
    ensures
        map_of(s).dom().contains(s[i].server),
        map_of(s)[s[i].server] == s[i],
{
    let k = s[i].server;
    assert(exists|j: int| 0 <= j < s.len() && s[j].server == k);
    let j = choose|j: int| 0 <= j < s.len() && s[j].server == k;
    if j < i {
        assert(s[j].server.0 < s[i].server.0);
    } else if i < j {
        assert(s[i].server.0 < s[j].server.0);
    }
}

/// The event clock: for each server, the latest event from that server that
/// has been processed.
#[derive(Debug)]
pub struct EventClock {
    entries: Vec<EventId>,
}

impl View for EventClock {
    type V = Map<ServerId, EventId>;

    closed spec fn view(&self) -> Map<ServerId, EventId> {
        map_of(self.entries@)
    }
}

impl EventClock {
    #[verifier::type_invariant]
    closed spec fn well_formed(&self) -> bool {
        sorted_by_server(self.entries@)
    }

    /// The clock's event identifiers, ordered by server.
    pub closed spec fn ids(&self) -> Seq<EventId> {
        self.entries@
    }

    /// An empty clock.
    pub fn new() -> (r: EventClock)
        ensures
            r@ == Map::<ServerId, EventId>::empty(),
    {
        let r = EventClock { entries: Vec::new() };
        assert(r@ =~= Map::<ServerId, EventId>::empty());
        r
    }

    /// The latest processed event from `server`, if any.
    pub fn get(&self, server: ServerId) -> (r: Option<EventId>)
        ensures
            r == (if self@.dom().contains(server) { Some(self@[server]) } else { None::<EventId> }),
    {
        proof {
            use_type_invariant(self);
        }
        let mut i: usize = 0;
        while i < self.entries.len()
            invariant
                i <= self.entries@.len(),
                sorted_by_server(self.entries@),
                forall|j: int| 0 <= j < i ==> self.entries@[j].server != server,
            decreases self.entries@.len() - i,
        {
            if self.entries[i].server.0 == server.0 {
                proof {
                    lemma_map_of_entry(self.entries@, i as int);
                }
                return Some(self.entries[i]);
            }
            i = i + 1;
        }
        None
    }

    /// Record `id` as the latest event processed from its server.
    pub fn update_with_id(&mut self, id: EventId)
        ensures
            final(self)@ == old(self)@.insert(id.server, id),
    {
        proof {
            use_type_invariant(&*self);
        }
        let ghost old_entries = self.entries@;
        let mut i: usize = 0;
        while i < self.entries.len() && self.entries[i].server.0 < id.server.0
            invariant
                i <= self.entries@.len(),
                self.entries@ == old_entries,
                sorted_by_server(old_entries),
                forall|j: int| 0 <= j < i ==> old_entries[j].server.0 < id.server.0,
            decreases self.entries@.len() - i,
        {
            i = i + 1;
        }
        let ghost new_entries: Seq<EventId>;
        if i < self.entries.len() && self.entries[i].server.0 == id.server.0 {
            let mut entries: Vec<EventId> = Vec::new();
            std::mem::swap(&mut entries, &mut self.entries);
            entries.set(i, id);
            proof {
                new_entries = entries@;
            }
            self.entries = entries;
        } else {
            let mut entries: Vec<EventId> = Vec::new();
            std::mem::swap(&mut entries, &mut self.entries);
            entries.insert(i, id);
            proof {
                new_entries = entries@;
            }
            self.entries = entries;
        }
        proof {
            assert(sorted_by_server(new_entries));
            assert(map_of(new_entries) =~= map_of(old_entries).insert(id.server, id)) by {
                assert forall|k: ServerId| #[trigger] map_of(new_entries).dom().contains(k) <==> map_of(old_entries).insert(id.server, id).dom().contains(k) by {
                    if map_of(new_entries).dom().contains(k) {
                        let j = choose|j: int| 0 <= j < new_entries.len() && new_entries[j].server == k;
                        if k != id.server {
                            if j < i {
                                assert(old_entries[j] == new_entries[j]);
                            } else if new_entries.len() == old_entries.len() {
                                assert(old_entries[j] == new_entries[j]);
                            } else {
                                assert(old_entries[j - 1] == new_entries[j]);
                            }
                        }
                    }
                    if map_of(old_entries).dom().contains(k) && k != id.server {
                        let j = choose|j: int| 0 <= j < old_entries.len() && old_entries[j].server == k;
                        if j < i {
                            assert(old_entries[j] == new_entries[j]);
                        } else if new_entries.len() == old_entries.len() {
                            assert(old_entries[j] == new_entries[j]);
                        } else {
                            assert(old_entries[j] == new_entries[j + 1]);
                        }
                    }
                    if k == id.server {
                        assert(new_entries[i as int] == id);
                    }
                }
                assert forall|k: ServerId| #[trigger] map_of(new_entries).dom().contains(k) implies map_of(new_entries)[k] == map_of(old_entries).insert(id.server, id)[k] by {
                    let j = choose|j: int| 0 <= j < new_entries.len() && new_entries[j].server == k;
                    lemma_map_of_entry(new_entries, j);
                    if k != id.server {
                        let jj = if j < i || new_entries.len() == old_entries.len() { j } else { j - 1 };
                        assert(old_entries[jj] == new_entries[j]);
                        lemma_map_of_entry(old_entries, jj);
                    }
                }
            }
        }
    }

    /// Whether this clock is covered by `other` (see [`clock_le`]).
    pub fn le(&self, other: &EventClock) -> (r: bool)
        ensures
            r == clock_le(self@, other@),
    {
        proof {
            use_type_invariant(self);
            use_type_invariant(other);
        }
        let mut i: usize = 0;
        while i < self.entries.len()
            invariant
                i <= self.entries@.len(),
                sorted_by_server(self.entries@),
                forall|j: int| 0 <= j < i ==> #[trigger] other@.dom().contains(self.entries@[j].server)
                    && id_le(self.entries@[j], other@[self.entries@[j].server]),
            decreases self.entries@.len() - i,
        {
            let e = self.entries[i];
            proof {
                lemma_map_of_entry(self.entries@, i as int);
            }
            match other.get(e.server) {
                None => {
                    return false;
                },
                Some(o) => {
                    if o.precedes(&e) {
                        return false;
                    }
                },
            }
            i = i + 1;
        }
        proof {
            assert forall|s: ServerId| #[trigger] self@.dom().contains(s) implies other@.dom().contains(s) && id_le(self@[s], other@[s]) by {
                let j = choose|j: int| 0 <= j < self.entries@.len() && self.entries@[j].server == s;
                lemma_map_of_entry(self.entries@, j);
            }
        }
        true
    }

    /// The number of servers the clock mentions.
    pub fn len(&self) -> (r: usize)
        ensures
            r == self.ids().len(),
    {
        self.entries.len()
    }

    /// The `i`th identifier, in order of server.
    pub fn entry(&self, i: usize) -> (r: EventId)
        requires
            i < self.ids().len(),
        ensures
            r == self.ids()[i as int],
    {
        self.entries[i]
    }

    /// A copy of this clock.
    pub fn duplicate(&self) -> (r: EventClock)
        ensures
            r@ == self@,
            r.ids() == self.ids(),
    {
        proof {
            use_type_invariant(self);
        }
        let mut v: Vec<EventId> = Vec::new();
        let mut i: usize = 0;
        while i < self.entries.len()
            invariant
                i <= self.entries@.len(),
                v@ == self.entries@.subrange(0, i as int),
            decreases self.entries@.len() - i,
        {
            v.push(self.entries[i]);
            i = i + 1;
            assert(v@ =~= self.entries@.subrange(0, i as int));
        }
        assert(v@ =~= self.entries@);
        EventClock { entries: v }
    }
}

} // verus!
