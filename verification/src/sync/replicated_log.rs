//! The event log replicated across the network: the log itself, the peer
//! table, and the servers known to have left the network.

use vstd::prelude::*;
use crate::id::{EpochId, EventId, ServerId, clock_le};
use crate::sync::eventlog::{
    Event, EventIdGenerator, EventLog, EventLogState, EventLogView, EventView, add_outcome,
    missing_from, views,
};
use crate::rpc::RemoteServerRequestType;
use crate::sync::message::{Message, MessageDetail, NetworkSnapshot, TargetedMessage};
use crate::sync::eventlog::{after_clock, sorted_by_id};
use crate::sync::network::{
    GossipNetworkState, GossipPeers, GossipPeersView, NetworkError, NodeConfig, PeerConfig, SyncConfig,
    all_disabled, eligible, names, enable_saved, with_enabled, peer_confs, law_peer_states_round_trip,
};

verus! {

/// How far the delivery of a targeted message has got.
#[derive(Clone, Copy, Debug, PartialEq, Eq, Structural)]
pub enum RouteStage {
    /// Sent straight to its target
    Direct,
    /// Handed to another server to pass on
    Relayed,
}

/// What to do next with a targeted message.
#[derive(Debug)]
pub enum RouteAction {
    /// Send the message to the peer of this name, at this stage of delivery
    SendTo(String, RouteStage),
    /// Stop trying, answering with this error
    GiveUp(NetworkError),
}

/// Some enabled peer of `net` is named `target`.
pub open spec fn direct_route(net: GossipPeersView, target: Seq<char>) -> bool {
    exists|i: int| 0 <= i < net.peers.len() && net.peers[i].enabled && #[trigger] net.peers[i].conf.name == target
}

/// `r` is the next hop of a relayed message that servers `via` have
/// already tried: an enabled peer not among them, or, when there is none,
/// giving up with an internal error.
pub open spec fn relay_hop(net: GossipPeersView, via: Seq<Seq<char>>, r: RouteAction) -> bool {
    if exists|i: int| 0 <= i < net.peers.len() && #[trigger] eligible(net.peers, i, via) {
        r matches RouteAction::SendTo(name, RouteStage::Relayed)
            && exists|i: int| 0 <= i < net.peers.len() && #[trigger] eligible(net.peers, i, via) && net.peers[i].conf.name == name@
    } else {
        r matches RouteAction::GiveUp(NetworkError::InternalError(m)) && m@ == "Ran out of potential peers to route targeted message"@
    }
}

/// Errors in saving the state of a replicated log.
#[derive(Debug)]
pub enum EventLogSaveError {
    /// The synchronisation task is still running
    TaskStillRunning,
    InternalError(String),
    UnknownError(String),
}

/// A server that has left the network: its identifier, name and epoch.
#[derive(Debug)]
pub struct Tombstone {
    pub server: ServerId,
    pub name: String,
    pub epoch: EpochId,
}

/// The content of a sequence of tombstones, keyed by server.
pub open spec fn tombstone_entries(s: Seq<Tombstone>) -> Seq<(ServerId, (Seq<char>, EpochId))> {
    s.map_values(|t: Tombstone| (t.server, (t.name@, t.epoch)))
}

/// No two entries of `s` share a key.
pub open spec fn distinct_keys<V>(s: Seq<(ServerId, V)>) -> bool {
    forall|i: int, j: int| 0 <= i < s.len() && 0 <= j < s.len() && i != j ==> s[i].0 != s[j].0
}

/// The entries of `s` as a map from key to value.
pub open spec fn keyed<V>(s: Seq<(ServerId, V)>) -> Map<ServerId, V> {
    Map::new(
        |k: ServerId| exists|i: int| 0 <= i < s.len() && s[i].0 == k,
        |k: ServerId| s[choose|i: int| 0 <= i < s.len() && s[i].0 == k].1,
    )
}

/// In a sequence without repeated keys, each entry is the map's value for its key.
pub proof fn lemma_keyed_entry<V>(s: Seq<(ServerId, V)>, i: int)
    requires
        distinct_keys(s),
        0 <= i < s.len(),
    ensures
        keyed(s).dom().contains(s[i].0),
        keyed(s)[s[i].0] == s[i].1,
{
    let k = s[i].0;
    assert(s[i].0 == k);
    assert(exists|j: int| #![trigger s[j]] 0 <= j < s.len() && s[j].0 == k);
    let c = choose|j: int| 0 <= j < s.len() && s[j].0 == k;
    assert(c == i);
}

/// Removing one entry removes its key from the map.
pub proof fn lemma_keyed_remove<V>(s: Seq<(ServerId, V)>, k: int)
    requires
        distinct_keys(s),
        0 <= k < s.len(),
    ensures
        distinct_keys(s.remove(k)),
        keyed(s.remove(k)) == keyed(s).remove(s[k].0),
{
    let t = s.remove(k);
    assert forall|a: int, b: int| 0 <= a < t.len() && 0 <= b < t.len() && a != b implies t[a].0 != t[b].0 by {
        let sa = if a < k { a } else { a + 1 };
        let sb = if b < k { b } else { b + 1 };
        assert(t[a] == s[sa] && t[b] == s[sb]);
    }
    assert(keyed(t) =~= keyed(s).remove(s[k].0)) by {
        assert forall|x: ServerId| #[trigger] keyed(t).dom().contains(x) <==> keyed(s).remove(s[k].0).dom().contains(x) by {
            if keyed(t).dom().contains(x) {
                let j = choose|j: int| 0 <= j < t.len() && t[j].0 == x;
                let sj = if j < k { j } else { j + 1 };
                assert(s[sj].0 == x);
            }
            if keyed(s).dom().contains(x) && x != s[k].0 {
                let j = choose|j: int| 0 <= j < s.len() && s[j].0 == x;
                if j < k {
                    assert(t[j].0 == x);
                } else {
                    assert(t[j - 1].0 == x);
                }
            }
        }
        assert forall|x: ServerId| #[trigger] keyed(t).dom().contains(x) implies keyed(t)[x] == keyed(s).remove(s[k].0)[x] by {
            let j = choose|j: int| 0 <= j < t.len() && t[j].0 == x;
            lemma_keyed_entry(t, j);
            let sj = if j < k { j } else { j + 1 };
            assert(t[j] == s[sj]);
            lemma_keyed_entry(s, sj);
        }
    }
}

/// Replacing an entry by one with the same key replaces the map's value.
pub proof fn lemma_keyed_update<V>(s: Seq<(ServerId, V)>, i: int, e: (ServerId, V))
    requires
        distinct_keys(s),
        0 <= i < s.len(),
        s[i].0 == e.0,
    ensures
        distinct_keys(s.update(i, e)),
        keyed(s.update(i, e)) == keyed(s).insert(e.0, e.1),
{
    let t = s.update(i, e);
    assert forall|a: int, b: int| 0 <= a < t.len() && 0 <= b < t.len() && a != b implies t[a].0 != t[b].0 by {
        assert(s[a].0 != s[b].0);
    }
    assert(keyed(t) =~= keyed(s).insert(e.0, e.1)) by {
        assert forall|x: ServerId| #[trigger] keyed(t).dom().contains(x) <==> keyed(s).insert(e.0, e.1).dom().contains(x) by {
            if keyed(t).dom().contains(x) {
                let j = choose|j: int| 0 <= j < t.len() && t[j].0 == x;
                assert(s[j].0 == x);
            }
            if keyed(s).dom().contains(x) {
                let j = choose|j: int| 0 <= j < s.len() && s[j].0 == x;
                assert(t[j].0 == x);
            }
        }
        assert forall|x: ServerId| #[trigger] keyed(t).dom().contains(x) implies keyed(t)[x] == keyed(s).insert(e.0, e.1)[x] by {
            let j = choose|j: int| 0 <= j < t.len() && t[j].0 == x;
            lemma_keyed_entry(t, j);
            if j != i {
                lemma_keyed_entry(s, j);
            }
        }
    }
}

/// Appending an entry with a new key adds it to the map.
pub proof fn lemma_keyed_push<V>(s: Seq<(ServerId, V)>, e: (ServerId, V))
    requires
        distinct_keys(s),
        forall|j: int| 0 <= j < s.len() ==> s[j].0 != e.0,
    ensures
        distinct_keys(s.push(e)),
        keyed(s.push(e)) == keyed(s).insert(e.0, e.1),
{
    let t = s.push(e);
    assert(keyed(t) =~= keyed(s).insert(e.0, e.1)) by {
        assert forall|x: ServerId| #[trigger] keyed(t).dom().contains(x) <==> keyed(s).insert(e.0, e.1).dom().contains(x) by {
            if keyed(t).dom().contains(x) {
                let j = choose|j: int| 0 <= j < t.len() && t[j].0 == x;
                if j < s.len() {
                    assert(s[j].0 == x);
                }
            }
            if keyed(s).dom().contains(x) {
                let j = choose|j: int| 0 <= j < s.len() && s[j].0 == x;
                assert(t[j].0 == x);
            }
            if x == e.0 {
                assert(t[s.len() as int].0 == x);
            }
        }
        assert forall|x: ServerId| #[trigger] keyed(t).dom().contains(x) implies keyed(t)[x] == keyed(s).insert(e.0, e.1)[x] by {
            let j = choose|j: int| 0 <= j < t.len() && t[j].0 == x;
            lemma_keyed_entry(t, j);
            if j < s.len() {
                lemma_keyed_entry(s, j);
            }
        }
    }
}

/// The servers that have left the network, at most one record per server.
#[derive(Debug)]
struct ServerTombstones {
    entries: Vec<Tombstone>,
}

impl View for ServerTombstones {
    type V = Map<ServerId, (Seq<char>, EpochId)>;

    closed spec fn view(&self) -> Map<ServerId, (Seq<char>, EpochId)> {
        keyed(tombstone_entries(self.entries@))
    }
}

impl ServerTombstones {
    #[verifier::type_invariant]
    closed spec fn well_formed(&self) -> bool {
        distinct_keys(tombstone_entries(self.entries@))
    }

    fn new() -> (r: ServerTombstones)
        ensures
            r@ == Map::<ServerId, (Seq<char>, EpochId)>::empty(),
    {
        let r = ServerTombstones { entries: Vec::new() };
        assert(r@ =~= Map::<ServerId, (Seq<char>, EpochId)>::empty());
        r
    }

    /// Record `server` as having left the network under `name` in `epoch`,
    /// replacing any earlier record for it.
    fn set(&mut self, server: ServerId, name: String, epoch: EpochId)
        ensures
            final(self)@ == old(self)@.insert(server, (name@, epoch)),
    {
        proof {
            use_type_invariant(&*self);
        }
        let mut v: Vec<Tombstone> = Vec::new();
        std::mem::swap(&mut v, &mut self.entries);
        let ghost s0 = tombstone_entries(v@);
        let ghost e = (server, (name@, epoch));
        let mut i: usize = 0;
        while i < v.len()
            invariant
                i <= v@.len(),
                s0 == tombstone_entries(v@),
                distinct_keys(s0),
                keyed(s0) == old(self)@,
                e == (server, (name@, epoch)),
                forall|j: int| 0 <= j < i ==> v@[j].server != server,
            decreases v@.len() - i,
        {
            if v[i].server == server {
                let ghost before = v@;
                let mut entry = v.remove(i);
                entry.name = name;
                entry.epoch = epoch;
                v.insert(i, entry);
                proof {
                    assert(s0[i as int].0 == server);
                    assert(v@ =~= before.update(i as int, v@[i as int]));
                    assert(tombstone_entries(v@)[i as int] == e);
                    assert(tombstone_entries(v@) =~= s0.update(i as int, e));
                    lemma_keyed_update(s0, i as int, e);
                }
                self.entries = v;
                return;
            }
            i = i + 1;
        }
        v.push(Tombstone { server, name, epoch });
        proof {
            assert(tombstone_entries(v@) =~= s0.push(e));
            lemma_keyed_push(s0, e);
        }
        self.entries = v;
    }

    /// Forget any record of `server` having left the network.
    fn clear(&mut self, server: ServerId)
        ensures
            final(self)@ == old(self)@.remove(server),
    {
        proof {
            use_type_invariant(&*self);
        }
        let mut v: Vec<Tombstone> = Vec::new();
        std::mem::swap(&mut v, &mut self.entries);
        let ghost s0 = tombstone_entries(v@);
        let mut i: usize = 0;
        while i < v.len()
            invariant
                i <= v@.len(),
                s0 == tombstone_entries(v@),
                distinct_keys(s0),
                keyed(s0) == old(self)@,
                forall|j: int| 0 <= j < i ==> v@[j].server != server,
            decreases v@.len() - i,
        {
            if v[i].server == server {
                let ghost before = v@;
                let _ = v.remove(i);
                proof {
                    assert(v@ =~= before.remove(i as int));
                    assert(tombstone_entries(v@) =~= s0.remove(i as int));
                    lemma_keyed_remove(s0, i as int);
                }
                self.entries = v;
                return;
            }
            i = i + 1;
        }
        proof {
            assert(keyed(s0) =~= keyed(s0).remove(server)) by {
                assert forall|x: ServerId| keyed(s0).dom().contains(x) implies x != server by {
                    let j = choose|j: int| 0 <= j < s0.len() && s0[j].0 == x;
                    assert(v@[j].server == x);
                }
            }
        }
        self.entries = v;
    }

    /// The name under which server `id` left the network, if it left in `epoch`.
    fn lookup(&self, id: ServerId, epoch: EpochId) -> (r: Option<String>)
        ensures
            match r {
                Some(name) => self@.dom().contains(id) && self@[id] == (name@, epoch),
                None => !(self@.dom().contains(id) && self@[id].1 == epoch),
            },
    {
        proof {
            use_type_invariant(self);
        }
        let ghost s0 = tombstone_entries(self.entries@);
        let mut i: usize = 0;
        while i < self.entries.len()
            invariant
                i <= self.entries@.len(),
                s0 == tombstone_entries(self.entries@),
                distinct_keys(s0),
                forall|j: int| 0 <= j < i ==> self.entries@[j].server != id,
            decreases self.entries@.len() - i,
        {
            if self.entries[i].server == id {
                proof {
                    lemma_keyed_entry(s0, i as int);
                }
                if self.entries[i].epoch == epoch {
                    return Some(self.entries[i].name.clone());
                }
                return None;
            }
            i = i + 1;
        }
        proof {
            if keyed(s0).dom().contains(id) {
                let j = choose|j: int| 0 <= j < s0.len() && s0[j].0 == id;
                assert(self.entries@[j].server == id);
            }
        }
        None
    }

    /// The records, one per server.
    fn into_entries(self) -> (r: Vec<Tombstone>)
        ensures
            distinct_keys(tombstone_entries(r@)),
            keyed(tombstone_entries(r@)) == self@,
    {
        proof {
            use_type_invariant(&self);
        }
        self.entries
    }
}

/// Saved state of a [`ReplicatedEventLog`], used to resume it after an upgrade.
#[derive(Debug)]
pub struct ReplicatedEventLogState {
    pub server: (ServerId, EpochId),
    pub log_state: EventLogState,
    pub server_tombstones: Vec<Tombstone>,
    pub network_state: GossipNetworkState,
}

/// The content of a [`ReplicatedEventLog`].
pub struct ReplicatedEventLogView {
    /// This server's identifier and epoch
    pub server: (ServerId, EpochId),
    /// The servers that have left the network: name and epoch, by identifier
    pub tombstones: Map<ServerId, (Seq<char>, EpochId)>,
    pub log: EventLogView,
    pub net: GossipPeersView,
}

/// The event log replicated across the network: it holds this server's log
/// and peer table, and refuses sync messages from servers that have left.
#[derive(Debug)]
pub struct ReplicatedEventLog {
    server: (ServerId, EpochId),
    tombstones: ServerTombstones,
    log: EventLog,
    net: GossipPeers,
}

impl View for ReplicatedEventLog {
    type V = ReplicatedEventLogView;

    closed spec fn view(&self) -> ReplicatedEventLogView {
        ReplicatedEventLogView {
            server: self.server,
            tombstones: self.tombstones@,
            log: self.log@,
            net: self.net@,
        }
    }
}

/// The configured peers of a network configuration, by content.
pub open spec fn config_views(s: Seq<PeerConfig>) -> Seq<crate::sync::network::PeerConfigView> {
    s.map_values(|c: PeerConfig| c@)
}

/// `net` is the peer table built from `peers` for a node listening on
/// `node`'s address: the first matching peer is this node, the others its
/// peers, all disabled.
pub open spec fn table_for(net: GossipPeersView, peers: Seq<PeerConfig>, fanout: usize, node: NodeConfig) -> bool {
    exists|k: int| 0 <= k < peers.len()
        && peers[k].address.ip@ == node.listen_addr.ip@ && peers[k].address.port == node.listen_addr.port
        && (forall|j: int| 0 <= j < k ==> !(peers[j].address.ip@ == node.listen_addr.ip@
            && peers[j].address.port == node.listen_addr.port))
        && net.me == peers[k]@
        && net.peers == all_disabled(config_views(peers).remove(k))
        && net.fanout == fanout
}

/// The configuration lists a peer at the node's listen address.
pub open spec fn lists_node(net_config: SyncConfig, node_config: NodeConfig) -> bool {
    exists|i: int| 0 <= i < net_config.peers@.len()
        && net_config.peers@[i].address.ip@ == node_config.listen_addr.ip@
        && net_config.peers@[i].address.port == node_config.listen_addr.port
}

impl ReplicatedEventLog {
    /// A new replicated log for this server and epoch: an empty log whose
    /// identifiers start at 1, the peer table built from the configurations,
    /// and no tombstones.
    pub fn new(server_id: ServerId, epoch: EpochId, net_config: SyncConfig, node_config: &NodeConfig) -> (r: ReplicatedEventLog)
        requires
            lists_node(net_config, *node_config),
        ensures
            r@.server == (server_id, epoch),
            r@.tombstones == Map::<ServerId, (Seq<char>, EpochId)>::empty(),
            r@.log.history == Map::<crate::id::EventId, crate::sync::eventlog::EventView>::empty(),
            r@.log.pending == Map::<crate::id::EventId, crate::sync::eventlog::EventView>::empty(),
            r@.log.clock == Map::<ServerId, crate::id::EventId>::empty(),
            r@.log.generator == (EventIdGenerator { server: server_id, epoch, last: 0 }),
            table_for(r@.net, net_config.peers@, net_config.fanout, *node_config),
    {
        let net = GossipPeers::new(net_config.peers, net_config.fanout, &node_config.listen_addr);
        let log = EventLog::new(EventIdGenerator::new(server_id, epoch, 0));
        ReplicatedEventLog { server: (server_id, epoch), tombstones: ServerTombstones::new(), log, net }
    }

    /// Resume a replicated log from saved state and the given configurations:
    /// the saved server, log clock and identifier generator, and tombstones
    /// (a later entry for a server replacing an earlier one), and the peer
    /// table built from the configurations with the peers the state recorded
    /// as enabled enabled again.
    pub fn restore(state: ReplicatedEventLogState, net_config: SyncConfig, node_config: &NodeConfig) -> (r: ReplicatedEventLog)
        requires
            lists_node(net_config, *node_config),
        ensures
            restored_from(state, net_config, *node_config, r@),
    {
        let mut net = GossipPeers::new(net_config.peers, net_config.fanout, &node_config.listen_addr);
        let ghost t = net@;
        net.restore_state(&state.network_state);
        let ghost net1 = net@;
        assert(table_for(t, net_config.peers@, net_config.fanout, *node_config));
        let log = EventLog::restore(state.log_state);
        let ghost old_log = log@;
        let mut r = ReplicatedEventLog { server: state.server, tombstones: ServerTombstones::new(), log, net };
        let ghost entries = tombstone_entries(state.server_tombstones@);
        let mut i: usize = 0;
        while i < state.server_tombstones.len()
            invariant
                i <= state.server_tombstones@.len(),
                entries == tombstone_entries(state.server_tombstones@),
                r@.tombstones == insert_entries(Map::empty(), entries.take(i as int)),
                r@.server == state.server,
                r@.log == old_log,
                r@.net == net1,
            decreases state.server_tombstones@.len() - i,
        {
            let t = &state.server_tombstones[i];
            r.tombstones.set(t.server, t.name.clone(), t.epoch);
            proof {
                assert(entries.take(i + 1).drop_last() =~= entries.take(i as int));
            }
            i = i + 1;
        }
        proof {
            assert(entries.take(state.server_tombstones@.len() as int) =~= entries);
        }
        r
    }

    /// Stop synchronising with a server that has left the network: sync
    /// messages from it in `epoch` are refused from now on, and no sync
    /// message is sent to it.
    pub fn disable_server(&mut self, name: String, id: ServerId, epoch: EpochId)
        ensures
            final(self)@ == (ReplicatedEventLogView {
                tombstones: old(self)@.tombstones.insert(id, (name@, epoch)),
                net: GossipPeersView { peers: with_enabled(old(self)@.net.peers, name@, false), ..old(self)@.net },
                ..old(self)@
            }),
    {
        self.net.disable_peer(&name);
        self.tombstones.set(id, name, epoch);
    }

    /// Synchronise with a server that has joined the network: its messages
    /// are accepted again, and sync messages are sent to it.
    pub fn enable_server(&mut self, name: &String, id: ServerId)
        ensures
            final(self)@ == (ReplicatedEventLogView {
                tombstones: old(self)@.tombstones.remove(id),
                net: GossipPeersView { peers: with_enabled(old(self)@.net.peers, name@, true), ..old(self)@.net },
                ..old(self)@
            }),
    {
        self.tombstones.clear(id);
        self.net.enable_peer(name);
    }

    /// The name under which server `id` left the network, if it left in `epoch`.
    pub fn server_is_tombstoned(&self, id: ServerId, epoch: EpochId) -> (r: Option<String>)
        ensures
            match r {
                Some(name) => self@.tombstones.dom().contains(id) && self@.tombstones[id] == (name@, epoch),
                None => !(self@.tombstones.dom().contains(id) && self@.tombstones[id].1 == epoch),
            },
    {
        self.tombstones.lookup(id, epoch)
    }

    /// Save the state needed to resume this log after an upgrade.
    pub fn save_state(self) -> (r: ReplicatedEventLogState)
        ensures
            saved_from(self@, r),
    {
        let network_state = self.net.save_state();
        ReplicatedEventLogState {
            server: self.server,
            log_state: self.log.save_state(),
            server_tombstones: self.tombstones.into_entries(),
            network_state,
        }
    }

    /// A protocol message from this server with the given content.
    pub fn message(&self, content: MessageDetail) -> (r: Message)
        ensures
            r.source_server == self@.server,
            r.content == content,
    {
        Message { source_server: self.server, content }
    }

    /// A request from this server to the server named `target`, not yet
    /// routed through any server.
    pub fn targeted_message(&self, target: String, request: RemoteServerRequestType) -> (r: TargetedMessage)
        ensures
            r.source@ == self@.net.me.name,
            r.target == target,
            r.via@.len() == 0,
            r.content == request,
    {
        TargetedMessage { source: self.net.me().name.clone(), target, via: Vec::new(), content: request }
    }

    /// Record that this server has tried to deliver a targeted message, so
    /// that it is not routed back here.
    pub fn mark_routed(&self, detail: &mut TargetedMessage)
        ensures
            final(detail).via@.len() == old(detail).via@.len() + 1,
            final(detail).via@.drop_last() == old(detail).via@,
            final(detail).via@.last()@ == self@.net.me.name,
            final(detail).source == old(detail).source,
            final(detail).target == old(detail).target,
            final(detail).content == old(detail).content,
    {
        detail.via.push(self.net.me().name.clone());
    }

    /// The next step in delivering the targeted message `detail`. `stage`
    /// is `None` at the start, and otherwise the stage at which the last
    /// send failed to connect. At the start the message goes straight to its
    /// target when that is an enabled peer. Once that is not possible or has
    /// failed, this server adds itself to the servers the message has been
    /// through, and the message is relayed through an enabled peer not among
    /// them, another one each time a relay cannot be reached; when none is
    /// left, delivery gives up.
    pub fn route_step(&self, detail: &mut TargetedMessage, stage: Option<RouteStage>) -> (r: RouteAction)
        ensures
            final(detail).source == old(detail).source,
            final(detail).target == old(detail).target,
            final(detail).content == old(detail).content,
            if stage is None && direct_route(self@.net, old(detail).target@) {
                &&& final(detail).via@ == old(detail).via@
                &&& r matches RouteAction::SendTo(name, RouteStage::Direct) && name@ == old(detail).target@
            } else if stage == Some(RouteStage::Relayed) {
                &&& final(detail).via@ == old(detail).via@
                &&& relay_hop(self@.net, names(old(detail).via@), r)
            } else {
                &&& names(final(detail).via@) == names(old(detail).via@).push(self@.net.me.name)
                &&& relay_hop(self@.net, names(final(detail).via@), r)
            },
    {
        if stage.is_none() {
            match self.net.find_peer(&detail.target) {
                Some(p) => {
                    proof {
                        let i = choose|i: int| 0 <= i < self@.net.peers.len() && self@.net.peers[i].enabled
                            && self@.net.peers[i].conf.name == detail.target@ && p@ == self@.net.peers[i].conf;
                        assert(self@.net.peers[i].conf.name == old(detail).target@);
                    }
                    return RouteAction::SendTo(p.name.clone(), RouteStage::Direct);
                },
                None => {},
            }
        }
        let relayed = match stage {
            Some(RouteStage::Relayed) => true,
            _ => false,
        };
        if !relayed {
            let ghost v0 = detail.via@;
            self.mark_routed(detail);
            proof {
                assert(names(detail.via@) =~= names(v0).push(self@.net.me.name));
            }
        }
        match self.net.choose_peer_except(&detail.via) {
            Some(p) => {
                proof {
                    let i = choose|i: int| 0 <= i < self@.net.peers.len()
                        && eligible(self@.net.peers, i, names(detail.via@)) && p@ == self@.net.peers[i].conf;
                    assert(eligible(self@.net.peers, i, names(detail.via@)) && self@.net.peers[i].conf.name == p.name@);
                }
                RouteAction::SendTo(p.name.clone(), RouteStage::Relayed)
            },
            None => RouteAction::GiveUp(NetworkError::InternalError("Ran out of potential peers to route targeted message".to_owned())),
        }
    }

    /// Create an event of this server with the given payload, timestamped
    /// now, and add it to the log. Returns the event, to be propagated to
    /// the network, and the events that became ready to be applied.
    pub fn create_event(&mut self, payload: Vec<u8>) -> (r: (Event, Vec<Event>))
        requires
            old(self)@.log.generator.last < u64::MAX,
        ensures
            r.0@.id == (EventId {
                server: old(self)@.log.generator.server,
                epoch: old(self)@.log.generator.epoch,
                local: (old(self)@.log.generator.last + 1) as u64,
            }),
            r.0@.clock == old(self)@.log.clock,
            r.0@.payload == payload@,
            add_outcome(
                EventLogView {
                    generator: EventIdGenerator { last: (old(self)@.log.generator.last + 1) as u64, ..old(self)@.log.generator },
                    ..old(self)@.log
                },
                r.0@, final(self)@.log, views(r.1@)),
            final(self)@ == (ReplicatedEventLogView { log: final(self)@.log, ..old(self)@ }),
    {
        let event = self.log.create(payload);
        let copy = event.duplicate();
        let ready = self.log.add(event);
        (copy, ready)
    }

    /// Handle an event received from a peer. An event already in the history
    /// is ignored. Otherwise it is added to the log; if its dependencies are
    /// still not all processed afterwards, the missing ones are to be requested
    /// from the sender; and if `should_propagate` is set it is to be passed on.
    pub fn handle_new_event(&mut self, evt: Event, should_propagate: bool) -> (r: EventOutcome)
        ensures
            event_handled(old(self)@.log, evt, should_propagate, final(self)@.log, r),
            final(self)@ == (ReplicatedEventLogView { log: final(self)@.log, ..old(self)@ }),
    {
        if self.log.get(&evt.id).is_some() {
            let r = EventOutcome { ready: Vec::new(), request: None, propagate: None };
            proof {
                assert(views(r.ready@) =~= Seq::<EventView>::empty());
            }
            return r;
        }
        let propagate = if should_propagate { Some(evt.duplicate()) } else { None };
        let deps = evt.clock.duplicate();
        let ready = self.log.add(evt);
        let request = if deps.le(self.log.clock()) {
            None
        } else {
            Some(self.log.missing_ids_for(&deps))
        };
        EventOutcome { ready, request, propagate }
    }

    /// Handle several events received together, in order, without passing
    /// any of them on.
    pub fn handle_bulk_events(&mut self, events: &Vec<Event>) -> (r: BulkOutcome)
        ensures
            exists|states: Seq<EventLogView>, steps: Seq<EventOutcome>|
                #[trigger] handled_in_turn(states, events@, steps)
                && states[0] == old(self)@.log
                && states.last() == final(self)@.log
                && views(r.ready@) == all_ready(steps)
                && request_views(r.requests@) == all_requests(steps),
            final(self)@ == (ReplicatedEventLogView { log: final(self)@.log, ..old(self)@ }),
    {
        let mut ready: Vec<Event> = Vec::new();
        let mut requests: Vec<Vec<EventId>> = Vec::new();
        let ghost mut states: Seq<EventLogView> = seq![self@.log];
        let ghost mut steps: Seq<EventOutcome> = Seq::empty();
        let mut i: usize = 0;
        proof {
            assert(views(ready@) =~= Seq::<EventView>::empty());
            assert(request_views(requests@) =~= Seq::<Seq<EventId>>::empty());
        }
        while i < events.len()
            invariant
                i <= events@.len(),
                handled_in_turn(states, events@.take(i as int), steps),
                states[0] == old(self)@.log,
                states.last() == self@.log,
                views(ready@) == all_ready(steps),
                request_views(requests@) == all_requests(steps),
                self@ == (ReplicatedEventLogView { log: self@.log, ..old(self)@ }),
            decreases events@.len() - i,
        {
            let ghost r1 = views(ready@);
            let ghost q1 = request_views(requests@);
            let step = self.handle_new_event(events[i].duplicate(), false);
            let ghost step_g = step;
            let mut step_events = step.ready;
            ready.append(&mut step_events);
            match step.request {
                Some(q) => requests.push(q),
                None => {},
            }
            proof {
                let states0 = states;
                let steps0 = steps;
                states = states.push(self@.log);
                steps = steps.push(step_g);
                assert(steps.drop_last() =~= steps0);
                assert(views(ready@) =~= r1 + views(step_g.ready@));
                assert(request_views(requests@) =~= match step_g.request {
                    Some(q) => q1.push(q@),
                    None => q1,
                });
                lemma_handled_in_turn_push(states0, events@, i as int, steps0, self@.log, step_g);
            }
            i = i + 1;
        }
        proof {
            assert(events@.take(events@.len() as int) =~= events@);
        }
        BulkOutcome { ready, requests }
    }

    /// The events of the log after `clock`, ordered by identifier: the
    /// answer to a peer's sync request.
    pub fn events_since(&self, clock: &crate::id::EventClock) -> (r: Vec<Event>)
        ensures
            events_since(self@.log.history, clock@, r@),
    {
        self.log.get_since(clock)
    }

    /// The events of the log with the identifiers `ids`, in that order,
    /// skipping those the log does not have: the answer to a peer's request
    /// for events.
    pub fn events_by_id(&self, ids: &Vec<EventId>) -> (r: Vec<Event>)
        ensures
            views(r@) == found_events(self@.log.history, ids@),
    {
        let mut out: Vec<Event> = Vec::new();
        let mut i: usize = 0;
        while i < ids.len()
            invariant
                i <= ids@.len(),
                views(out@) == found_events(self@.log.history, ids@.take(i as int)),
            decreases ids@.len() - i,
        {
            proof {
                assert(ids@.take(i + 1).drop_last() =~= ids@.take(i as int));
            }
            match self.log.get(&ids[i]) {
                Some(e) => {
                    let ghost before = views(out@);
                    out.push(e.duplicate());
                    proof {
                        assert(views(out@) =~= before.push(e@));
                    }
                },
                None => {},
            }
            i = i + 1;
        }
        proof {
            assert(ids@.take(ids@.len() as int) =~= ids@);
        }
        out
    }

    /// Adopt a network state received from a peer: the log takes its clock,
    /// and each of its servers is enabled as a peer.
    pub fn import_network_state(&mut self, net: &NetworkSnapshot)
        ensures
            final(self)@ == (ReplicatedEventLogView {
                log: EventLogView { clock: net.clock@, ..old(self)@.log },
                net: GossipPeersView { peers: enable_all(old(self)@.net.peers, server_names(net.servers@)), ..old(self)@.net },
                ..old(self)@
            }),
    {
        self.log.set_clock(net.clock.duplicate());
        let ghost names = server_names(net.servers@);
        let ghost p0 = old(self)@.net.peers;
        let mut i: usize = 0;
        while i < net.servers.len()
            invariant
                i <= net.servers@.len(),
                names == server_names(net.servers@),
                self@ == (ReplicatedEventLogView {
                    log: EventLogView { clock: net.clock@, ..old(self)@.log },
                    net: GossipPeersView { peers: enable_all(p0, names.take(i as int)), ..old(self)@.net },
                    ..old(self)@
                }),
            decreases net.servers@.len() - i,
        {
            self.net.enable_peer(&net.servers[i].0);
            proof {
                assert(names.take(i + 1).drop_last() =~= names.take(i as int));
            }
            i = i + 1;
        }
        proof {
            assert(names.take(net.servers@.len() as int) =~= names);
        }
    }

    /// Adopt the network state obtained when joining the network: each of
    /// its servers is enabled for sync (and any tombstone for it cleared),
    /// then the log takes its clock.
    pub fn adopt_synced_state(&mut self, net: &NetworkSnapshot)
        ensures
            final(self)@ == (ReplicatedEventLogView {
                log: EventLogView { clock: net.clock@, ..old(self)@.log },
                net: GossipPeersView { peers: enable_all(old(self)@.net.peers, server_names(net.servers@)), ..old(self)@.net },
                tombstones: remove_all(old(self)@.tombstones, server_ids(net.servers@)),
                ..old(self)@
            }),
    {
        let ghost names = server_names(net.servers@);
        let ghost ids = server_ids(net.servers@);
        let ghost p0 = old(self)@.net.peers;
        let mut i: usize = 0;
        proof {
            assert(names.take(0) =~= Seq::<Seq<char>>::empty());
            assert(ids.take(0) =~= Seq::<ServerId>::empty());
        }
        while i < net.servers.len()
            invariant
                i <= net.servers@.len(),
                names == server_names(net.servers@),
                ids == server_ids(net.servers@),
                self@ == (ReplicatedEventLogView {
                    net: GossipPeersView { peers: enable_all(p0, names.take(i as int)), ..old(self)@.net },
                    tombstones: remove_all(old(self)@.tombstones, ids.take(i as int)),
                    ..old(self)@
                }),
            decreases net.servers@.len() - i,
        {
            self.enable_server(&net.servers[i].0, net.servers[i].1);
            proof {
                assert(names.take(i + 1).drop_last() =~= names.take(i as int));
                assert(ids.take(i + 1).drop_last() =~= ids.take(i as int));
            }
            i = i + 1;
        }
        proof {
            assert(names.take(net.servers@.len() as int) =~= names);
            assert(ids.take(net.servers@.len() as int) =~= ids);
        }
        self.log.set_clock(net.clock.duplicate());
    }

    /// Handle a protocol message from the peer named `received_from`. A
    /// message from a server that has left the network is refused; otherwise
    /// events are added to the log, requests for events are answered from it,
    /// a network state is adopted, targeted messages are delivered or routed,
    /// and a peer that refused one of this server's messages is disabled.
    pub fn handle_message(&mut self, msg: Message, received_from: &String) -> (r: SyncStep)
        ensures
            message_handled(old(self)@, msg, received_from@, final(self)@, r),
    {
        let ghost m = msg;
        if self.server_is_tombstoned(msg.source_server.0, msg.source_server.1).is_some() {
            return SyncStep::Reject;
        }
        match msg.content {
            MessageDetail::NewEvent(e) => SyncStep::NewEvent(self.handle_new_event(e, true)),
            MessageDetail::BulkEvents(evs) => SyncStep::BulkEvents(self.handle_bulk_events(&evs)),
            MessageDetail::SyncRequest(clock) => SyncStep::SendEvents(self.events_since(&clock)),
            MessageDetail::GetEvent(ids) => SyncStep::SendEvents(self.events_by_id(&ids)),
            MessageDetail::GetNetworkState => SyncStep::ExportState,
            MessageDetail::NetworkState(net) => {
                self.import_network_state(&net);
                SyncStep::ImportState(net)
            },
            MessageDetail::TargetedMessage(detail) => {
                if detail.target == self.net.me().name {
                    SyncStep::Deliver(detail.content)
                } else {
                    SyncStep::Route(detail)
                }
            },
            MessageDetail::MessageRejected => {
                self.net.disable_peer(received_from);
                SyncStep::Nothing
            },
            MessageDetail::Done => SyncStep::Nothing,
            MessageDetail::TargetedMessageResponse(_) => SyncStep::Nothing,
        }
    }

    /// This server's identifier and epoch.
    pub fn server(&self) -> (r: (ServerId, EpochId))
        ensures
            r == self@.server,
    {
        self.server
    }

    /// The event log.
    pub fn event_log(&self) -> (r: &EventLog)
        ensures
            r@ == self@.log,
    {
        &self.log
    }

    /// The peer table.
    pub fn network(&self) -> (r: &GossipPeers)
        ensures
            r@ == self@.net,
    {
        &self.net
    }
}

/// What handling one incoming event calls for.
#[derive(Debug)]
pub struct EventOutcome {
    /// Events that became ready to be applied, in the order they were processed
    pub ready: Vec<Event>,
    /// The identifiers to ask the sender for, when some of the event's
    /// dependencies are still missing
    pub request: Option<Vec<EventId>>,
    /// The event, when it is to be passed on to other peers
    pub propagate: Option<Event>,
}

/// What handling several incoming events calls for.
#[derive(Debug)]
pub struct BulkOutcome {
    /// Events that became ready to be applied, in the order they were processed
    pub ready: Vec<Event>,
    /// One request for missing dependencies per event that still lacks some, in order
    pub requests: Vec<Vec<EventId>>,
}

/// Handling event `e` took the log from `m` to `n` with outcome `r`:
/// the event is added unless it is already in the history; the missing
/// dependencies are requested when the event is new and still not causally
/// ready afterwards; and the event is passed on when it is new and
/// `propagate` is set.
pub open spec fn event_handled(m: EventLogView, e: Event, propagate: bool, n: EventLogView, r: EventOutcome) -> bool {
    let fresh = !m.history.dom().contains(e.id);
    &&& add_outcome(m, e@, n, views(r.ready@))
    &&& match r.request {
        Some(q) => fresh && !clock_le(e.clock@, n.clock) && q@ == missing_from(e.clock.ids(), n.history.dom()),
        None => !(fresh && !clock_le(e.clock@, n.clock)),
    }
    &&& match r.propagate {
        Some(p) => fresh && propagate && p@ == e@,
        None => !(fresh && propagate),
    }
}

/// What the synchronisation task is to do after a message from a peer.
#[derive(Debug)]
pub enum SyncStep {
    /// The sender has left the network: answer `MessageRejected`
    Reject,
    /// A new event was handled: hand the ready events to the server, ask the
    /// sender for the missing dependencies if any, else answer `Done`, and
    /// pass the event on if it is to be propagated
    NewEvent(EventOutcome),
    /// Several events were handled: hand the ready events to the server, ask
    /// for each set of missing dependencies, and answer `Done` if there were none
    BulkEvents(BulkOutcome),
    /// Answer with these events, as `BulkEvents`
    SendEvents(Vec<Event>),
    /// Ask the server for the current network state and answer with it
    ExportState,
    /// The state's clock and servers were adopted: hand the state to the
    /// server and answer `Done`
    ImportState(NetworkSnapshot),
    /// A request addressed to this server: hand it to the server and answer
    /// with its response
    Deliver(RemoteServerRequestType),
    /// A message addressed to another server: route it on and answer with the response
    Route(TargetedMessage),
    /// Nothing more to do
    Nothing,
}

/// `r` holds, ordered by identifier, every event of history `h` after clock `c`.
pub open spec fn events_since(h: Map<EventId, EventView>, c: Map<ServerId, EventId>, r: Seq<Event>) -> bool {
    &&& sorted_by_id(views(r))
    &&& forall|i: int| 0 <= i < r.len() ==> #[trigger] h.dom().contains(r[i].id)
        && h[r[i].id] == r[i]@ && after_clock(c, r[i].id)
    &&& forall|k: EventId| #[trigger] h.dom().contains(k) && after_clock(c, k)
        ==> exists|i: int| 0 <= i < r.len() && r[i].id == k
}

/// The events of history `h` with the identifiers `ids`, in the order of
/// `ids`, skipping those not in `h`.
pub open spec fn found_events(h: Map<EventId, EventView>, ids: Seq<EventId>) -> Seq<EventView>
    decreases ids.len(),
{
    if ids.len() == 0 {
        Seq::empty()
    } else if h.dom().contains(ids.last()) {
        found_events(h, ids.drop_last()).push(h[ids.last()])
    } else {
        found_events(h, ids.drop_last())
    }
}

/// The peers of `s` after enabling, in order, each peer named in `names`.
pub open spec fn enable_all(s: Seq<crate::sync::network::PeerView>, names: Seq<Seq<char>>) -> Seq<crate::sync::network::PeerView>
    decreases names.len(),
{
    if names.len() == 0 {
        s
    } else {
        with_enabled(enable_all(s, names.drop_last()), names.last(), true)
    }
}

/// The names of the servers of a network state.
pub open spec fn server_names(s: Seq<(String, ServerId)>) -> Seq<Seq<char>> {
    s.map_values(|p: (String, ServerId)| p.0@)
}

/// The server `source` left the network in the epoch it gives.
pub open spec fn is_tombstoned(t: Map<ServerId, (Seq<char>, EpochId)>, source: (ServerId, EpochId)) -> bool {
    t.dom().contains(source.0) && t[source.0].1 == source.1
}

/// What handling `msg`, received from the peer named `from`, does: the
/// replicated log goes from `o` to `n` and the task is left with `r`.
pub open spec fn message_handled(o: ReplicatedEventLogView, msg: Message, from: Seq<char>, n: ReplicatedEventLogView, r: SyncStep) -> bool {
    if is_tombstoned(o.tombstones, msg.source_server) {
        n == o && r is Reject
    } else {
        match msg.content {
            MessageDetail::NewEvent(e) => r matches SyncStep::NewEvent(out)
                && event_handled(o.log, e, true, n.log, out)
                && n == (ReplicatedEventLogView { log: n.log, ..o }),
            MessageDetail::BulkEvents(evs) => r matches SyncStep::BulkEvents(out)
                && (exists|states: Seq<EventLogView>, steps: Seq<EventOutcome>|
                    #[trigger] handled_in_turn(states, evs@, steps)
                    && states[0] == o.log
                    && states.last() == n.log
                    && views(out.ready@) == all_ready(steps)
                    && request_views(out.requests@) == all_requests(steps))
                && n == (ReplicatedEventLogView { log: n.log, ..o }),
            MessageDetail::SyncRequest(c) => r matches SyncStep::SendEvents(v)
                && events_since(o.log.history, c@, v@) && n == o,
            MessageDetail::GetEvent(ids) => r matches SyncStep::SendEvents(v)
                && views(v@) == found_events(o.log.history, ids@) && n == o,
            MessageDetail::GetNetworkState => r is ExportState && n == o,
            MessageDetail::NetworkState(net) => r == SyncStep::ImportState(net)
                && n == (ReplicatedEventLogView {
                    log: EventLogView { clock: net.clock@, ..o.log },
                    net: GossipPeersView { peers: enable_all(o.net.peers, server_names(net.servers@)), ..o.net },
                    ..o
                }),
            MessageDetail::TargetedMessage(d) => n == o && if d.target@ == o.net.me.name {
                r == SyncStep::Deliver(d.content)
            } else {
                r == SyncStep::Route(d)
            },
            MessageDetail::MessageRejected => r is Nothing
                && n == (ReplicatedEventLogView {
                    net: GossipPeersView { peers: with_enabled(o.net.peers, from, false), ..o.net },
                    ..o
                }),
            MessageDetail::Done => r is Nothing && n == o,
            MessageDetail::TargetedMessageResponse(_) => r is Nothing && n == o,
        }
    }
}

/// The requests of a sequence of outcomes.
pub open spec fn request_views(s: Seq<Vec<EventId>>) -> Seq<Seq<EventId>> {
    s.map_values(|q: Vec<EventId>| q@)
}

/// The events made ready by a sequence of outcomes, in order.
pub open spec fn all_ready(steps: Seq<EventOutcome>) -> Seq<EventView>
    decreases steps.len(),
{
    if steps.len() == 0 {
        Seq::empty()
    } else {
        all_ready(steps.drop_last()) + views(steps.last().ready@)
    }
}

/// The requests for missing dependencies of a sequence of outcomes, in order.
pub open spec fn all_requests(steps: Seq<EventOutcome>) -> Seq<Seq<EventId>>
    decreases steps.len(),
{
    if steps.len() == 0 {
        Seq::empty()
    } else {
        match steps.last().request {
            Some(q) => all_requests(steps.drop_last()).push(q@),
            None => all_requests(steps.drop_last()),
        }
    }
}

/// Handling the events of `evs` one after another, none of them passed on,
/// went through the log states `states` with outcomes `steps`.
pub open spec fn handled_in_turn(states: Seq<EventLogView>, evs: Seq<Event>, steps: Seq<EventOutcome>) -> bool {
    &&& states.len() == evs.len() + 1
    &&& steps.len() == evs.len()
    &&& forall|i: int| 0 <= i < evs.len() ==> #[trigger] event_handled(states[i], evs[i], false, states[i + 1], steps[i])
}

/// Handling the next event extends a run of handled events by one step.
pub proof fn lemma_handled_in_turn_push(
    states: Seq<EventLogView>,
    evs: Seq<Event>,
    i: int,
    steps: Seq<EventOutcome>,
    n: EventLogView,
    step: EventOutcome,
)
    requires
        0 <= i < evs.len(),
        handled_in_turn(states, evs.take(i), steps),
        event_handled(states.last(), evs[i], false, n, step),
    ensures
        handled_in_turn(states.push(n), evs.take(i + 1), steps.push(step)),
{
    let t = evs.take(i + 1);
    let s2 = states.push(n);
    let p2 = steps.push(step);
    assert forall|k: int| 0 <= k < t.len() implies #[trigger] event_handled(s2[k], t[k], false, s2[k + 1], p2[k]) by {
        if k < i {
            assert(t[k] == evs.take(i)[k]);
            assert(event_handled(states[k], evs.take(i)[k], false, states[k + 1], steps[k]));
        } else {
            assert(t[k] == evs[i]);
        }
    }
}

/// `st` is the saved state of a replicated log whose content is `x`.
pub open spec fn saved_from(x: ReplicatedEventLogView, st: ReplicatedEventLogState) -> bool {
    &&& st.server == x.server
    &&& st.log_state.clock@ == x.log.clock
    &&& st.log_state.id_gen == x.log.generator
    &&& distinct_keys(tombstone_entries(st.server_tombstones@))
    &&& keyed(tombstone_entries(st.server_tombstones@)) == x.tombstones
    &&& st.network_state.peer_states@.len() == x.net.peers.len()
    &&& forall|i: int| 0 <= i < st.network_state.peer_states@.len() ==> (#[trigger] st.network_state.peer_states@[i]).0@ == x.net.peers[i].conf.name
        && st.network_state.peer_states@[i].1 == x.net.peers[i].enabled
}

/// `y` is the content of the replicated log resumed from `st` with the
/// given configurations: the saved server, clock, generator and tombstones
/// (a later entry for a server replacing an earlier one), no events, and
/// the configured peer table with the peers saved as enabled enabled again.
pub open spec fn restored_from(st: ReplicatedEventLogState, net_config: SyncConfig, node_config: NodeConfig, y: ReplicatedEventLogView) -> bool {
    &&& y.server == st.server
    &&& y.tombstones == insert_entries(Map::empty(), tombstone_entries(st.server_tombstones@))
    &&& y.log.history == Map::<EventId, EventView>::empty()
    &&& y.log.pending == Map::<EventId, EventView>::empty()
    &&& y.log.clock == st.log_state.clock@
    &&& y.log.generator == st.log_state.id_gen
    &&& exists|t: GossipPeersView| table_for(t, net_config.peers@, net_config.fanout, node_config)
        && y.net == (GossipPeersView { peers: enable_saved(t.peers, saved_states(st.network_state.peer_states@)), ..t })
}

/// Inserting, in order, entries without repeated keys gives their map.
pub proof fn lemma_insert_entries_keyed<V>(s: Seq<(ServerId, V)>)
    requires
        distinct_keys(s),
    ensures
        insert_entries(Map::empty(), s) == keyed(s),
    decreases s.len(),
{
    if s.len() == 0 {
        assert(keyed(s) =~= Map::<ServerId, V>::empty());
    } else {
        let t = s.drop_last();
        assert(distinct_keys(t));
        lemma_insert_entries_keyed(t);
        assert(t.push(s.last()) =~= s);
        lemma_keyed_push(t, s.last());
    }
}

/// Resuming from a saved state gives back the server, the tombstones, the
/// log's clock and its identifier generator: events created afterwards
/// continue the saved numbering.
pub proof fn law_restore_after_save(
    x: ReplicatedEventLogView,
    st: ReplicatedEventLogState,
    net_config: SyncConfig,
    node_config: NodeConfig,
    y: ReplicatedEventLogView,
)
    requires
        saved_from(x, st),
        restored_from(st, net_config, node_config, y),
    ensures
        y.server == x.server,
        y.tombstones == x.tombstones,
        y.log.clock == x.log.clock,
        y.log.generator == x.log.generator,
{
    lemma_insert_entries_keyed(tombstone_entries(st.server_tombstones@));
}

/// Resuming from a saved state with the configurations the log was built
/// from gives back its peer table, with every peer enabled or disabled as
/// it was, when no two peers share a name.
pub proof fn law_restore_after_save_peers(
    x: ReplicatedEventLogView,
    st: ReplicatedEventLogState,
    net_config: SyncConfig,
    node_config: NodeConfig,
    y: ReplicatedEventLogView,
)
    requires
        saved_from(x, st),
        restored_from(st, net_config, node_config, y),
        forall|i: int, j: int| 0 <= i < x.net.peers.len() && 0 <= j < x.net.peers.len() && i != j
            ==> x.net.peers[i].conf.name != x.net.peers[j].conf.name,
        forall|t: GossipPeersView| #[trigger] table_for(t, net_config.peers@, net_config.fanout, node_config)
            ==> t.peers == all_disabled(peer_confs(x.net.peers)) && t.me == x.net.me && t.fanout == x.net.fanout,
    ensures
        y.net == x.net,
{
    let t = choose|t: GossipPeersView| table_for(t, net_config.peers@, net_config.fanout, node_config)
        && y.net == (GossipPeersView { peers: enable_saved(t.peers, saved_states(st.network_state.peer_states@)), ..t });
    let saved = saved_states(st.network_state.peer_states@);
    assert forall|i: int| 0 <= i < saved.len() implies #[trigger] saved[i] == (x.net.peers[i].conf.name, x.net.peers[i].enabled) by {
        assert(st.network_state.peer_states@[i].0@ == x.net.peers[i].conf.name);
    }
    law_peer_states_round_trip(x.net.peers, saved);
}

/// A server disabled for leaving the network is tombstoned: its sync
/// messages from that epoch are refused, under the name it left with.
pub proof fn law_disabled_server_is_tombstoned(
    x: ReplicatedEventLogView,
    name: Seq<char>,
    id: ServerId,
    epoch: EpochId,
    y: ReplicatedEventLogView,
)
    requires
        y == (ReplicatedEventLogView {
            tombstones: x.tombstones.insert(id, (name, epoch)),
            net: GossipPeersView { peers: with_enabled(x.net.peers, name, false), ..x.net },
            ..x
        }),
    ensures
        is_tombstoned(y.tombstones, (id, epoch)),
        y.tombstones[id].0 == name,
        forall|i: int| 0 <= i < y.net.peers.len() && #[trigger] y.net.peers[i].conf.name == name ==> !y.net.peers[i].enabled,
{
}

/// Once a server is disabled for leaving the network in an epoch, every
/// message from it in that epoch is refused and changes nothing.
pub proof fn law_tombstoned_messages_refused(
    x: ReplicatedEventLogView,
    name: Seq<char>,
    id: ServerId,
    epoch: EpochId,
    y: ReplicatedEventLogView,
    msg: Message,
    from: Seq<char>,
    z: ReplicatedEventLogView,
    r: SyncStep,
)
    requires
        y == (ReplicatedEventLogView {
            tombstones: x.tombstones.insert(id, (name, epoch)),
            net: GossipPeersView { peers: with_enabled(x.net.peers, name, false), ..x.net },
            ..x
        }),
        msg.source_server == (id, epoch),
        message_handled(y, msg, from, z, r),
    ensures
        r is Reject,
        z == y,
{
}

/// Enabling a server after disabling it clears its tombstone and enables
/// it as a peer, as enabling it alone would have.
pub proof fn law_enable_after_disable(
    x: ReplicatedEventLogView,
    name: Seq<char>,
    id: ServerId,
    epoch: EpochId,
    y: ReplicatedEventLogView,
    z: ReplicatedEventLogView,
)
    requires
        y == (ReplicatedEventLogView {
            tombstones: x.tombstones.insert(id, (name, epoch)),
            net: GossipPeersView { peers: with_enabled(x.net.peers, name, false), ..x.net },
            ..x
        }),
        z == (ReplicatedEventLogView {
            tombstones: y.tombstones.remove(id),
            net: GossipPeersView { peers: with_enabled(y.net.peers, name, true), ..y.net },
            ..y
        }),
    ensures
        !z.tombstones.dom().contains(id),
        z.tombstones == x.tombstones.remove(id),
        z.net.peers == with_enabled(x.net.peers, name, true),
        z.log == x.log,
{
    assert(z.tombstones =~= x.tombstones.remove(id));
    assert(with_enabled(with_enabled(x.net.peers, name, false), name, true) =~= with_enabled(x.net.peers, name, true));
}

/// The map `m` after inserting each entry of `s`, in order.
pub open spec fn insert_entries<V>(m: Map<ServerId, V>, s: Seq<(ServerId, V)>) -> Map<ServerId, V>
    decreases s.len(),
{
    if s.len() == 0 {
        m
    } else {
        insert_entries(m, s.drop_last()).insert(s.last().0, s.last().1)
    }
}

/// The map `m` after removing, in order, each key of `keys`.
pub open spec fn remove_all<V>(m: Map<ServerId, V>, keys: Seq<ServerId>) -> Map<ServerId, V>
    decreases keys.len(),
{
    if keys.len() == 0 {
        m
    } else {
        remove_all(m, keys.drop_last()).remove(keys.last())
    }
}

/// The identifiers of the servers of a network state.
pub open spec fn server_ids(s: Seq<(String, ServerId)>) -> Seq<ServerId> {
    s.map_values(|p: (String, ServerId)| p.1)
}

/// The saved peer states as names and flags.
pub open spec fn saved_states(s: Seq<(String, bool)>) -> Seq<(Seq<char>, bool)> {
    s.map_values(|p: (String, bool)| (p.0@, p.1))
}

} // verus!
