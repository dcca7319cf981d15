//! The peers of the gossip network: which are configured, which are
//! enabled, and how they are chosen and authenticated.

use vstd::prelude::*;
use rand::seq::IteratorRandom;
use crate::crypto::{certificate_fingerprint, hex_lower, sha1_digest_of};
use crate::text::pair_message;
use crate::tls::{certificate_common_name, peer_name_from_certificate};
use crate::validated::{ServerName, Validated};

verus! {

/// A peer's network address.
#[derive(Debug)]
pub struct PeerAddress {
    pub ip: String,
    pub port: u16,
}

/// Configuration of a peer in the gossip network.
#[derive(Debug)]
pub struct PeerConfig {
    pub name: String,
    pub address: PeerAddress,
    /// Lowercase hex SHA-1 fingerprint of the peer's certificate
    pub fingerprint: String,
}

/// The content of a [`PeerConfig`].
pub struct PeerConfigView {
    pub name: Seq<char>,
    pub ip: Seq<char>,
    pub port: u16,
    pub fingerprint: Seq<char>,
}

impl View for PeerConfig {
    type V = PeerConfigView;

    open spec fn view(&self) -> PeerConfigView {
        PeerConfigView { name: self.name@, ip: self.address.ip@, port: self.address.port, fingerprint: self.fingerprint@ }
    }
}

impl PeerAddress {
    /// A copy of this address.
    pub fn duplicate(&self) -> (r: PeerAddress)
        ensures
            r.ip@ == self.ip@,
            r.port == self.port,
    {
        PeerAddress { ip: self.ip.clone(), port: self.port }
    }
}

impl PeerConfig {
    /// A copy of this configuration.
    pub fn duplicate(&self) -> (r: PeerConfig)
        ensures
            r@ == self@,
    {
        PeerConfig { name: self.name.clone(), address: self.address.duplicate(), fingerprint: self.fingerprint.clone() }
    }
}

/// Configuration of the gossip network.
#[derive(Debug)]
pub struct SyncConfig {
    pub peers: Vec<PeerConfig>,
    pub fanout: usize,
    pub ca_file: String,
}

/// Configuration of this server's node in the gossip network.
#[derive(Debug)]
pub struct NodeConfig {
    pub listen_addr: PeerAddress,
    pub cert_file: String,
    pub key_file: String,
}

/// Errors in loading or processing a configuration; each carries the
/// message and the file it concerns.
#[derive(Debug)]
pub enum ConfigError {
    IoError(String, String),
    JsonError(String, String),
    AddrParseError(String, String),
    FormatError(String, String),
    MissingField(String, String),
}

/// Saved state of the peer table: each peer's name and whether it is enabled.
#[derive(Debug)]
pub struct GossipNetworkState {
    pub peer_states: Vec<(String, bool)>,
}

/// Errors of the gossip network.
#[derive(Debug)]
pub enum NetworkError {
    Io(String),
    Send(String),
    Json(String),
    Join(String),
    AlreadyListening,
    InternalError(String),
    AuthzError(String),
    Timeout,
}

/// A configured peer and whether sync messages may be sent to it.
#[derive(Debug)]
struct Peer {
    conf: PeerConfig,
    enabled: bool,
}

/// The content of a peer entry.
pub struct PeerView {
    pub conf: PeerConfigView,
    pub enabled: bool,
}

/// The content of a [`GossipPeers`].
pub struct GossipPeersView {
    pub fanout: usize,
    pub me: PeerConfigView,
    pub peers: Seq<PeerView>,
}

/// The peer table of the gossip network: this node's own configuration,
/// the other configured peers, and which of them are enabled.
#[derive(Debug)]
pub struct GossipPeers {
    fanout: usize,
    me: PeerConfig,
    peers: Vec<Peer>,
}

/// The views of a sequence of peer entries.
spec fn peer_views(s: Seq<Peer>) -> Seq<PeerView> {
    s.map_values(|p: Peer| PeerView { conf: p.conf@, enabled: p.enabled })
}

proof fn lemma_peer_views(s: Seq<Peer>)
    ensures
        peer_views(s).len() == s.len(),
        forall|j: int| 0 <= j < s.len() ==> #[trigger] peer_views(s)[j] == (PeerView { conf: s[j].conf@, enabled: s[j].enabled }),
{
}

proof fn lemma_eligible_without_exceptions(s: Seq<PeerView>, ex: Seq<Seq<char>>)
    requires
        ex.len() == 0,
    ensures
        forall|i: int| #[trigger] eligible(s, i, ex) == s[i].enabled,
{
    assert forall|i: int| #[trigger] eligible(s, i, ex) == s[i].enabled by {
        assert(!ex.contains(s[i].conf.name));
    }
}

/// The outcome of authenticating the peer named `name` at `ip` with a
/// certificate of fingerprint `fp`: the position of the first peer of that
/// name when its address and fingerprint are the configured ones, and an
/// authorisation error otherwise.
pub open spec fn authorisation(peers: Seq<PeerView>, name: Seq<char>, ip: Seq<char>, fp: Seq<char>, r: Result<usize, NetworkError>) -> bool {
    match r {
        Ok(i) => i < peers.len() && peers[i as int].conf.name == name
            && (forall|j: int| 0 <= j < i ==> peers[j].conf.name != name)
            && peers[i as int].conf.ip == ip
            && peers[i as int].conf.fingerprint == fp,
        Err(NetworkError::AuthzError(_)) => {
            ||| forall|j: int| 0 <= j < peers.len() ==> peers[j].conf.name != name
            ||| exists|i: int| 0 <= i < peers.len() && peers[i].conf.name == name
                && (forall|j: int| 0 <= j < i ==> peers[j].conf.name != name)
                && (peers[i].conf.ip != ip || peers[i].conf.fingerprint != fp)
        },
        Err(_) => false,
    }
}

/// The configurations in `s`, all disabled.
pub open spec fn all_disabled(s: Seq<PeerConfigView>) -> Seq<PeerView> {
    s.map_values(|c: PeerConfigView| PeerView { conf: c, enabled: false })
}

/// The peers of `s` with `enabled` set for those named `name`.
pub open spec fn with_enabled(s: Seq<PeerView>, name: Seq<char>, enabled: bool) -> Seq<PeerView> {
    s.map_values(|p: PeerView| if p.conf.name == name { PeerView { enabled, ..p } } else { p })
}

/// The number of enabled peers in `s`.
pub open spec fn count_enabled(s: Seq<PeerView>) -> nat
    decreases s.len(),
{
    if s.len() == 0 {
        0
    } else {
        count_enabled(s.drop_last()) + if s.last().enabled { 1nat } else { 0nat }
    }
}

/// The contents of a sequence of strings.
pub open spec fn names(v: Seq<String>) -> Seq<Seq<char>> {
    v.map_values(|s: String| s@)
}

/// Peer `i` of `s` is enabled and not named in `except`.
pub open spec fn eligible(s: Seq<PeerView>, i: int, except: Seq<Seq<char>>) -> bool {
    s[i].enabled && !except.contains(s[i].conf.name)
}

/// Calls rand's `IteratorRandom::choose` with the thread RNG over the
/// candidates: `None` exactly when there are none, otherwise one of them.
#[verifier::external_body]
fn choose_one(candidates: &Vec<usize>) -> (r: Option<usize>)
    ensures
        r is None <==> candidates@.len() == 0,
        r matches Some(x) ==> candidates@.contains(x),
{
    candidates.iter().copied().choose(&mut rand::thread_rng())
}

/// Calls rand's `IteratorRandom::choose_multiple` with the thread RNG: up
/// to `amount` of the candidates, each taken from a different position.
#[verifier::external_body]
fn choose_several(candidates: &Vec<usize>, amount: usize) -> (r: Vec<usize>)
    ensures
        r@.len() == if amount < candidates@.len() { amount as int } else { candidates@.len() as int },
        forall|i: int| 0 <= i < r@.len() ==> candidates@.contains(#[trigger] r@[i]),
        (forall|a: int, b: int| 0 <= a < b < candidates@.len() ==> candidates@[a] != candidates@[b])
            ==> (forall|a: int, b: int| 0 <= a < b < r@.len() ==> r@[a] != r@[b]),
{
    candidates.iter().copied().choose_multiple(&mut rand::thread_rng(), amount)
}

impl View for GossipPeers {
    type V = GossipPeersView;

    closed spec fn view(&self) -> GossipPeersView {
        GossipPeersView { fanout: self.fanout, me: self.me@, peers: peer_views(self.peers@) }
    }
}

impl GossipPeers {
    /// Build the peer table from the network's peer list: the first peer whose
    /// address is `listen_addr` is this node, the others are its peers, all
    /// initially disabled.
    pub fn new(mut peers: Vec<PeerConfig>, fanout: usize, listen_addr: &PeerAddress) -> (r: GossipPeers)
        requires
            exists|i: int| 0 <= i < peers@.len() && peers@[i].address.ip@ == listen_addr.ip@
                && peers@[i].address.port == listen_addr.port,
        ensures
            exists|k: int| 0 <= k < peers@.len()
                && peers@[k].address.ip@ == listen_addr.ip@ && peers@[k].address.port == listen_addr.port
                && (forall|j: int| 0 <= j < k ==> !(peers@[j].address.ip@ == listen_addr.ip@
                    && peers@[j].address.port == listen_addr.port))
                && r@.me == peers@[k]@
                && r@.peers == all_disabled(peers@.map_values(|c: PeerConfig| c@).remove(k)),
            r@.fanout == fanout,
    {
        let ghost cv = peers@.map_values(|c: PeerConfig| c@);
        let n: usize = peers.len();
        let mut k: usize = 0;
        while !(peers[k].address.ip == listen_addr.ip && peers[k].address.port == listen_addr.port)
            invariant
                0 <= k < peers@.len(),
                n == peers@.len(),
                exists|i: int| k <= i < peers@.len() && peers@[i].address.ip@ == listen_addr.ip@
                    && peers@[i].address.port == listen_addr.port,
                forall|j: int| 0 <= j < k ==> !(peers@[j].address.ip@ == listen_addr.ip@
                    && peers@[j].address.port == listen_addr.port),
            decreases peers@.len() - k,
        {
            proof {
                let w = choose|w: int| k <= w < peers@.len() && peers@[w].address.ip@ == listen_addr.ip@
                    && peers@[w].address.port == listen_addr.port;
                assert(w > k);
                assert(k + 1 < peers@.len());
            }
            k = k + 1;
        }
        let me = peers.remove(k);
        let mut table: Vec<Peer> = Vec::new();
        let ghost rest = cv.remove(k as int);
        proof {
            assert(peers@.map_values(|c: PeerConfig| c@) =~= rest);
        }
        let mut i: usize = 0;
        while i < peers.len()
            invariant
                i <= peers@.len(),
                peers@.map_values(|c: PeerConfig| c@) == rest,
                peer_views(table@) == all_disabled(rest.take(i as int)),
            decreases peers@.len() - i,
        {
            let ghost prev = peer_views(table@);
            table.push(Peer { conf: peers[i].duplicate(), enabled: false });
            proof {
                assert(peer_views(table@) =~= prev.push(PeerView { conf: rest[i as int], enabled: false }));
                assert(all_disabled(rest.take(i + 1)) =~= all_disabled(rest.take(i as int)).push(PeerView { conf: rest[i as int], enabled: false }));
            }
            i = i + 1;
        }
        proof {
            assert(rest.take(peers@.len() as int) =~= rest);
        }
        GossipPeers { fanout, me, peers: table }
    }

    /// This node's own configuration.
    pub fn me(&self) -> (r: &PeerConfig)
        ensures
            r@ == self@.me,
    {
        &self.me
    }

    /// The number of peers.
    pub fn len(&self) -> (r: usize)
        ensures
            r == self@.peers.len(),
    {
        self.peers.len()
    }

    /// The configuration of peer `i`.
    pub fn peer(&self, i: usize) -> (r: &PeerConfig)
        requires
            i < self@.peers.len(),
        ensures
            r@ == self@.peers[i as int].conf,
    {
        &self.peers[i].conf
    }

    /// Whether peer `i` is enabled.
    pub fn is_enabled(&self, i: usize) -> (r: bool)
        requires
            i < self@.peers.len(),
        ensures
            r == self@.peers[i as int].enabled,
    {
        self.peers[i].enabled
    }

    fn set_enabled_for(&mut self, name: &String, enabled: bool)
        ensures
            final(self)@ == (GossipPeersView { peers: with_enabled(old(self)@.peers, name@, enabled), ..old(self)@ }),
    {
        let ghost start = peer_views(self.peers@);
        let ghost me0 = self.me@;
        let ghost fanout0 = self.fanout;
        proof {
            lemma_peer_views(self.peers@);
        }
        let mut i: usize = 0;
        while i < self.peers.len()
            invariant
                i <= self.peers@.len(),
                self.me@ == me0,
                self.fanout == fanout0,
                start == old(self)@.peers,
                me0 == old(self)@.me,
                fanout0 == old(self)@.fanout,
                self.peers@.len() == start.len(),
                forall|j: int| 0 <= j < i ==> peer_views(self.peers@)[j] == with_enabled(start, name@, enabled)[j],
                forall|j: int| i <= j < self.peers@.len() ==> peer_views(self.peers@)[j] == start[j],
            decreases self.peers@.len() - i,
        {
            if self.peers[i].conf.name == *name {
                let ghost before = self.peers@;
                let mut p = self.peers.remove(i);
                p.enabled = enabled;
                self.peers.insert(i, p);
                proof {
                    assert forall|j: int| 0 <= j < self.peers@.len() && j != i implies self.peers@[j] == before[j] by {
                    }
                }
            }
            proof {
                lemma_peer_views(self.peers@);
            }
            i = i + 1;
        }
        proof {
            lemma_peer_views(self.peers@);
            assert(peer_views(self.peers@) =~= with_enabled(start, name@, enabled));
        }
    }

    /// Enable every peer named `name`.
    pub fn enable_peer(&mut self, name: &String)
        ensures
            final(self)@ == (GossipPeersView { peers: with_enabled(old(self)@.peers, name@, true), ..old(self)@ }),
    {
        self.set_enabled_for(name, true)
    }

    /// Disable every peer named `name`.
    pub fn disable_peer(&mut self, name: &String)
        ensures
            final(self)@ == (GossipPeersView { peers: with_enabled(old(self)@.peers, name@, false), ..old(self)@ }),
    {
        self.set_enabled_for(name, false)
    }

    /// The positions of the peers that are enabled and not named in `except`,
    /// in order.
    fn eligible_positions(&self, except: &Vec<String>) -> (r: Vec<usize>)
        ensures
            forall|a: int, b: int| 0 <= a < b < r@.len() ==> r@[a] < r@[b],
            forall|a: int| 0 <= a < r@.len() ==> (#[trigger] r@[a]) < self@.peers.len()
                && eligible(self@.peers, r@[a] as int, names(except@)),
            forall|i: int| 0 <= i < self@.peers.len() && #[trigger] eligible(self@.peers, i, names(except@))
                ==> r@.contains(i as usize),
    {
        let ghost ex = names(except@);
        proof {
            lemma_peer_views(self.peers@);
        }
        let mut out: Vec<usize> = Vec::new();
        let mut i: usize = 0;
        while i < self.peers.len()
            invariant
                i <= self.peers@.len(),
                forall|j: int| 0 <= j < self.peers@.len() ==> #[trigger] peer_views(self.peers@)[j] == (PeerView { conf: self.peers@[j].conf@, enabled: self.peers@[j].enabled }),
                ex == names(except@),
                forall|a: int, b: int| 0 <= a < b < out@.len() ==> out@[a] < out@[b],
                forall|a: int| 0 <= a < out@.len() ==> (#[trigger] out@[a]) < i
                    && eligible(self@.peers, out@[a] as int, ex),
                forall|j: int| 0 <= j < i && #[trigger] eligible(self@.peers, j, ex) ==> out@.contains(j as usize),
            decreases self.peers@.len() - i,
        {
            if self.peers[i].enabled {
                let mut named = false;
                let mut j: usize = 0;
                while j < except.len()
                    invariant
                        j <= except@.len(),
                        i < self.peers@.len(),
                        ex == names(except@),
                        named == ex.take(j as int).contains(self.peers@[i as int].conf.name@),
                    decreases except@.len() - j,
                {
                    let ghost x = self.peers@[i as int].conf.name@;
                    let ghost before = named;
                    if except[j] == self.peers[i].conf.name {
                        named = true;
                    }
                    proof {
                        assert(ex[j as int] == except@[j as int]@);
                        let t1 = ex.take(j + 1);
                        let t0 = ex.take(j as int);
                        if t1.contains(x) {
                            let idx = choose|idx: int| 0 <= idx < t1.len() && t1[idx] == x;
                            if idx < j {
                                assert(t0[idx] == x);
                            }
                        }
                        if t0.contains(x) {
                            let idx = choose|idx: int| 0 <= idx < t0.len() && t0[idx] == x;
                            assert(t1[idx] == x);
                        }
                        if ex[j as int] == x {
                            assert(t1[j as int] == x);
                        }
                    }
                    j = j + 1;
                }
                proof {
                    assert(ex.take(except@.len() as int) =~= ex);
                }
                if !named {
                    let ghost before = out@;
                    out.push(i);
                    proof {
                        assert forall|jj: int| 0 <= jj < i + 1 && #[trigger] eligible(self@.peers, jj, ex) implies out@.contains(jj as usize) by {
                            if jj < i {
                                let t = choose|t: int| 0 <= t < before.len() && before[t] == jj as usize;
                                assert(out@[t] == jj as usize);
                            } else {
                                assert(out@[before.len() as int] == i);
                            }
                        }
                    }
                }
            }
            i = i + 1;
        }
        out
    }

    /// A random enabled peer; `None` when no peer is enabled.
    pub fn choose_peer(&self) -> (r: Option<&PeerConfig>)
        ensures
            r is None <==> (forall|i: int| 0 <= i < self@.peers.len() ==> !(#[trigger] self@.peers[i]).enabled),
            r matches Some(p) ==> exists|i: int| 0 <= i < self@.peers.len() && self@.peers[i].enabled && p@ == self@.peers[i].conf,
    {
        let none: Vec<String> = Vec::new();
        proof {
            assert(names(none@) =~= Seq::<Seq<char>>::empty());
            lemma_eligible_without_exceptions(self@.peers, names(none@));
        }
        let r = self.choose_peer_except(&none);
        proof {
            if r is None {
                assert forall|i: int| 0 <= i < self@.peers.len() implies !(#[trigger] self@.peers[i]).enabled by {
                    assert(!eligible(self@.peers, i, names(none@)));
                }
            } else {
                let i = choose|i: int| 0 <= i < self@.peers.len() && !eligible(self@.peers, i, names(none@));
            }
        }
        r
    }

    /// A random peer, enabled or not; `None` when there are no peers.
    pub fn choose_any_peer(&self) -> (r: Option<&PeerConfig>)
        ensures
            r is None <==> self@.peers.len() == 0,
            r matches Some(p) ==> exists|i: int| 0 <= i < self@.peers.len() && p@ == self@.peers[i].conf,
    {
        let mut all: Vec<usize> = Vec::new();
        let mut i: usize = 0;
        while i < self.peers.len()
            invariant
                i <= self.peers@.len(),
                all@.len() == i,
                forall|a: int| 0 <= a < i ==> all@[a] == a,
            decreases self.peers@.len() - i,
        {
            all.push(i);
            i = i + 1;
        }
        match choose_one(&all) {
            Some(k) => {
                proof {
                    let t = choose|t: int| 0 <= t < all@.len() && all@[t] == k;
                    assert(k < self.peers@.len());
                    lemma_peer_views(self.peers@);
                    assert(self@.peers[k as int].conf == self.peers@[k as int].conf@);
                }
                Some(&self.peers[k].conf)
            },
            None => None,
        }
    }

    /// A random enabled peer not named in `except`; `None` when there is none.
    pub fn choose_peer_except(&self, except: &Vec<String>) -> (r: Option<&PeerConfig>)
        ensures
            r is None <==> (forall|i: int| 0 <= i < self@.peers.len() ==> !#[trigger] eligible(self@.peers, i, names(except@))),
            r matches Some(p) ==> exists|i: int| 0 <= i < self@.peers.len()
                && eligible(self@.peers, i, names(except@)) && p@ == self@.peers[i].conf,
    {
        let cands = self.eligible_positions(except);
        match choose_one(&cands) {
            Some(k) => {
                proof {
                    let t = choose|t: int| 0 <= t < cands@.len() && cands@[t] == k;
                    assert(cands@[t] < self@.peers.len());
                    lemma_peer_views(self.peers@);
                    assert(self@.peers[k as int].conf == self.peers@[k as int].conf@);
                }
                Some(&self.peers[k].conf)
            },
            None => {
                proof {
                    assert forall|i: int| 0 <= i < self@.peers.len() implies !#[trigger] eligible(self@.peers, i, names(except@)) by {
                        if eligible(self@.peers, i, names(except@)) {
                            assert(cands@.contains(i as usize));
                        }
                    }
                }
                None
            },
        }
    }

    /// The first enabled peer named `name`, if any.
    pub fn find_peer(&self, name: &String) -> (r: Option<&PeerConfig>)
        ensures
            match r {
                Some(p) => exists|i: int| 0 <= i < self@.peers.len() && self@.peers[i].enabled
                    && self@.peers[i].conf.name == name@ && p@ == self@.peers[i].conf
                    && forall|j: int| 0 <= j < i ==> !(self@.peers[j].enabled && self@.peers[j].conf.name == name@),
                None => forall|i: int| 0 <= i < self@.peers.len() ==> !(self@.peers[i].enabled && #[trigger] self@.peers[i].conf.name == name@),
            },
    {
        proof {
            lemma_peer_views(self.peers@);
        }
        let mut i: usize = 0;
        while i < self.peers.len()
            invariant
                i <= self.peers@.len(),
                forall|j: int| 0 <= j < self.peers@.len() ==> #[trigger] peer_views(self.peers@)[j] == (PeerView { conf: self.peers@[j].conf@, enabled: self.peers@[j].enabled }),
                forall|j: int| 0 <= j < i ==> !(self@.peers[j].enabled && self@.peers[j].conf.name == name@),
            decreases self.peers@.len() - i,
        {
            if self.peers[i].enabled && self.peers[i].conf.name == *name {
                proof {
                    assert(self@.peers[i as int] == peer_views(self.peers@)[i as int]);
                }
                return Some(&self.peers[i].conf);
            }
            i = i + 1;
        }
        None
    }

    /// The peers a new message is sent to: up to `fanout` enabled peers,
    /// chosen at random, given by position, none twice.
    pub fn propagation_targets(&self) -> (r: Vec<usize>)
        ensures
            r@.len() == if (self@.fanout as int) < count_enabled(self@.peers) { self@.fanout as int } else { count_enabled(self@.peers) as int },
            forall|a: int| 0 <= a < r@.len() ==> (#[trigger] r@[a]) < self@.peers.len() && self@.peers[r@[a] as int].enabled,
            forall|a: int, b: int| 0 <= a < b < r@.len() ==> r@[a] != r@[b],
    {
        let none: Vec<String> = Vec::new();
        proof {
            assert(names(none@) =~= Seq::<Seq<char>>::empty());
            lemma_eligible_without_exceptions(self@.peers, names(none@));
        }
        let cands = self.eligible_positions(&none);
        let n: usize = self.peers.len();
        proof {
            lemma_peer_views(self.peers@);
            assert(self@.peers.len() == n);
            assert forall|i: int| 0 <= i < self@.peers.len() && self@.peers[i].enabled implies cands@.contains(i as usize) by {
                assert(eligible(self@.peers, i, names(none@)));
            }
            assert forall|a: int| 0 <= a < cands@.len() implies (#[trigger] cands@[a]) < self@.peers.len() && self@.peers[cands@[a] as int].enabled by {
                assert(eligible(self@.peers, cands@[a] as int, names(none@)));
            }
            self.lemma_count_enabled(cands@);
        }
        let r = choose_several(&cands, self.fanout);
        proof {
            assert forall|a: int| 0 <= a < r@.len() implies (#[trigger] r@[a]) < self@.peers.len() && self@.peers[r@[a] as int].enabled by {
                assert(cands@.contains(r@[a]));
                let t = choose|t: int| 0 <= t < cands@.len() && cands@[t] == r@[a];
            }
        }
        r
    }

    /// The number of enabled peers is the length of any increasing list of
    /// exactly the enabled positions.
    proof fn lemma_count_enabled(&self, c: Seq<usize>)
        requires
            self@.peers.len() <= usize::MAX,
            forall|a: int, b: int| 0 <= a < b < c.len() ==> c[a] < c[b],
            forall|a: int| 0 <= a < c.len() ==> (#[trigger] c[a]) < self@.peers.len() && self@.peers[c[a] as int].enabled,
            forall|i: int| 0 <= i < self@.peers.len() && self@.peers[i].enabled ==> c.contains(i as usize),
        ensures
            c.len() == count_enabled(self@.peers),
    {
        lemma_count_positions(self@.peers, c);
    }

    /// Authenticate an incoming connection: the peer named `name` must be
    /// configured, connect from its configured IP address, and present a
    /// certificate with its configured fingerprint. Returns that peer's position.
    pub fn authorise_peer(&self, name: &String, remote_ip: &String, cert_der: &[u8]) -> (r: Result<usize, NetworkError>)
        ensures
            authorisation(self@.peers, name@, remote_ip@, hex_lower(sha1_digest_of(cert_der@)), r),
    {
        let remote_fingerprint = certificate_fingerprint(cert_der);
        self.authorise_peer_fingerprint(name, remote_ip, &remote_fingerprint)
    }

    /// Authenticate an incoming connection from `remote_ip` presenting the
    /// certificate `cert_der`: the peer is the server named by the
    /// certificate's common name, which must be configured with that address
    /// and certificate fingerprint. Returns the peer's position and name.
    pub fn authorise_connection(&self, remote_ip: &String, cert_der: &[u8]) -> (r: Result<(usize, String), NetworkError>)
        ensures
            match certificate_common_name(cert_der@) {
                Some(Some(cn)) => if ServerName::valid(cn) {
                    authorisation(self@.peers, cn, remote_ip@, hex_lower(sha1_digest_of(cert_der@)),
                        match r { Ok((i, _)) => Ok(i), Err(e) => Err(e) })
                    && (r matches Ok((_, n)) ==> n@ == cn)
                } else {
                    r matches Err(NetworkError::InternalError(_))
                },
                _ => r matches Err(NetworkError::InternalError(_)),
            },
    {
        let name = match peer_name_from_certificate(cert_der) {
            Ok(n) => n.value().clone(),
            Err(e) => return Err(e),
        };
        match self.authorise_peer(&name, remote_ip, cert_der) {
            Ok(i) => Ok((i, name)),
            Err(e) => Err(e),
        }
    }

    /// Authenticate an incoming connection from the peer named `name`, at
    /// `remote_ip`, whose certificate has the fingerprint `remote_fingerprint`.
    pub fn authorise_peer_fingerprint(&self, name: &String, remote_ip: &String, remote_fingerprint: &String) -> (r: Result<usize, NetworkError>)
        ensures
            authorisation(self@.peers, name@, remote_ip@, remote_fingerprint@, r),
    {
        let mut i: usize = 0;
        while i < self.peers.len() && !(self.peers[i].conf.name == *name)
            invariant
                i <= self.peers@.len(),
                forall|j: int| 0 <= j < i ==> self@.peers[j].conf.name != name@,
            decreases self.peers@.len() - i,
        {
            i = i + 1;
        }
        if i == self.peers.len() {
            proof {
                lemma_peer_views(self.peers@);
            }
            return Err(NetworkError::AuthzError("Couldn't find peer configuration".to_owned()));
        }
        let conf = &self.peers[i].conf;
        proof {
            lemma_peer_views(self.peers@);
            assert(self@.peers[i as int].conf == conf@);
        }
        if !(*remote_ip == conf.address.ip) {
            return Err(NetworkError::AuthzError(pair_message(
                "IP address doesn't match peer configuration", remote_ip.as_str(), conf.address.ip.as_str())));
        }
        if !(*remote_fingerprint == conf.fingerprint) {
            return Err(NetworkError::AuthzError(pair_message(
                "Certificate doesn't match", remote_fingerprint.as_str(), conf.fingerprint.as_str())));
        }
        Ok(i)
    }

    /// Save the table's state: each peer's name and whether it is enabled.
    pub fn save_state(&self) -> (r: GossipNetworkState)
        ensures
            r.peer_states@.len() == self@.peers.len(),
            forall|i: int| 0 <= i < r.peer_states@.len() ==> (#[trigger] r.peer_states@[i]).0@ == self@.peers[i].conf.name
                && r.peer_states@[i].1 == self@.peers[i].enabled,
    {
        let mut out: Vec<(String, bool)> = Vec::new();
        let mut i: usize = 0;
        while i < self.peers.len()
            invariant
                i <= self.peers@.len(),
                out@.len() == i,
                forall|j: int| 0 <= j < i ==> (#[trigger] out@[j]).0@ == self@.peers[j].conf.name
                    && out@[j].1 == self@.peers[j].enabled,
            decreases self.peers@.len() - i,
        {
            out.push((self.peers[i].conf.name.clone(), self.peers[i].enabled));
            i = i + 1;
        }
        GossipNetworkState { peer_states: out }
    }

    /// Re-enable, after a restart, the peers that a saved state recorded as enabled.
    pub fn restore_state(&mut self, state: &GossipNetworkState)
        ensures
            final(self)@ == (GossipPeersView { peers: enable_saved(old(self)@.peers, state.peer_states@.map_values(|p: (String, bool)| (p.0@, p.1))), ..old(self)@ }),
    {
        let ghost saved = state.peer_states@.map_values(|p: (String, bool)| (p.0@, p.1));
        let ghost start = self@.peers;
        let mut i: usize = 0;
        while i < state.peer_states.len()
            invariant
                i <= state.peer_states@.len(),
                saved == state.peer_states@.map_values(|p: (String, bool)| (p.0@, p.1)),
                self@ == (GossipPeersView { peers: enable_saved(start, saved.take(i as int)), ..self@ }),
                self@.fanout == old(self)@.fanout,
                self@.me == old(self)@.me,
                start == old(self)@.peers,
            decreases state.peer_states@.len() - i,
        {
            if state.peer_states[i].1 {
                self.enable_peer(&state.peer_states[i].0);
            }
            proof {
                assert(saved.take(i + 1).drop_last() =~= saved.take(i as int));
            }
            i = i + 1;
        }
        proof {
            assert(saved.take(state.peer_states@.len() as int) =~= saved);
        }
    }
}

/// The peers of `s` after enabling, in order, those the saved states mark as enabled.
pub open spec fn enable_saved(s: Seq<PeerView>, saved: Seq<(Seq<char>, bool)>) -> Seq<PeerView>
    decreases saved.len(),
{
    if saved.len() == 0 {
        s
    } else if saved.last().1 {
        with_enabled(enable_saved(s, saved.drop_last()), saved.last().0, true)
    } else {
        enable_saved(s, saved.drop_last())
    }
}

/// A disabled peer is never chosen: after disabling the peers named `name`,
/// a peer chosen among the enabled ones has another name.
pub proof fn law_disabled_peer_not_chosen(p: Seq<PeerView>, name: Seq<char>, i: int)
    requires
        0 <= i < p.len(),
        with_enabled(p, name, false)[i].enabled,
    ensures
        with_enabled(p, name, false)[i].conf.name != name,
{
}

/// The peers of `x` with only those before position `k` keeping their flag.
spec fn enabled_before(x: Seq<PeerView>, k: int) -> Seq<PeerView> {
    Seq::new(x.len(), |j: int| PeerView { conf: x[j].conf, enabled: x[j].enabled && j < k })
}

/// The configurations of a sequence of peers.
pub open spec fn peer_confs(x: Seq<PeerView>) -> Seq<PeerConfigView> {
    x.map_values(|p: PeerView| p.conf)
}

proof fn lemma_enable_saved_prefix(x: Seq<PeerView>, saved: Seq<(Seq<char>, bool)>, k: int)
    requires
        0 <= k <= x.len(),
        saved.len() == x.len(),
        forall|i: int, j: int| 0 <= i < x.len() && 0 <= j < x.len() && i != j ==> x[i].conf.name != x[j].conf.name,
        forall|i: int| 0 <= i < saved.len() ==> #[trigger] saved[i] == (x[i].conf.name, x[i].enabled),
    ensures
        enable_saved(all_disabled(peer_confs(x)), saved.take(k)) == enabled_before(x, k),
    decreases k,
{
    let t = all_disabled(peer_confs(x));
    if k == 0 {
        assert(saved.take(0) =~= Seq::<(Seq<char>, bool)>::empty());
        assert(t =~= enabled_before(x, 0));
    } else {
        lemma_enable_saved_prefix(x, saved, k - 1);
        assert(saved.take(k).drop_last() =~= saved.take(k - 1));
        assert(saved.take(k).last() == saved[k - 1]);
        if x[k - 1].enabled {
            assert(with_enabled(enabled_before(x, k - 1), x[k - 1].conf.name, true) =~= enabled_before(x, k)) by {
                assert forall|j: int| 0 <= j < x.len() implies #[trigger] with_enabled(enabled_before(x, k - 1), x[k - 1].conf.name, true)[j] == enabled_before(x, k)[j] by {
                    if j != k - 1 {
                        assert(x[j].conf.name != x[k - 1].conf.name);
                    }
                }
            }
        } else {
            assert(enabled_before(x, k - 1) =~= enabled_before(x, k));
        }
    }
}

/// The saved peer states give back the peer table: enabling, on a freshly
/// built table of the same peers (all disabled), those saved as enabled
/// restores every peer's flag, when no two peers share a name.
pub proof fn law_peer_states_round_trip(x: Seq<PeerView>, saved: Seq<(Seq<char>, bool)>)
    requires
        forall|i: int, j: int| 0 <= i < x.len() && 0 <= j < x.len() && i != j ==> x[i].conf.name != x[j].conf.name,
        saved.len() == x.len(),
        forall|i: int| 0 <= i < saved.len() ==> #[trigger] saved[i] == (x[i].conf.name, x[i].enabled),
    ensures
        enable_saved(all_disabled(peer_confs(x)), saved) == x,
{
    lemma_enable_saved_prefix(x, saved, x.len() as int);
    assert(saved.take(x.len() as int) =~= saved);
    assert(enabled_before(x, x.len() as int) =~= x);
}

proof fn lemma_count_positions(s: Seq<PeerView>, c: Seq<usize>)
    requires
        s.len() <= usize::MAX,
        forall|a: int, b: int| 0 <= a < b < c.len() ==> c[a] < c[b],
        forall|a: int| 0 <= a < c.len() ==> (#[trigger] c[a]) < s.len() && s[c[a] as int].enabled,
        forall|i: int| 0 <= i < s.len() && s[i].enabled ==> c.contains(i as usize),
    ensures
        c.len() == count_enabled(s),
    decreases s.len(),
{
    if s.len() == 0 {
        if c.len() > 0 {
            assert(c[0] < s.len());
        }
    } else {
        let t = s.drop_last();
        let last = (s.len() - 1) as usize;
        if s.last().enabled {
            assert(c.contains(last));
            let k = choose|k: int| 0 <= k < c.len() && c[k] == last;
            if k < c.len() - 1 {
                assert(c[k] < c[c.len() - 1]);
                assert(c[c.len() - 1] < s.len());
            }
            assert(k == c.len() - 1);
            let c2 = c.drop_last();
            assert forall|a: int| 0 <= a < c2.len() implies (#[trigger] c2[a]) < t.len() && t[c2[a] as int].enabled by {
                assert(c[a] < c[k]);
                assert(s[c[a] as int].enabled);
            }
            assert forall|i: int| 0 <= i < t.len() && t[i].enabled implies c2.contains(i as usize) by {
                assert(s[i].enabled);
                assert(c.contains(i as usize));
                let j = choose|j: int| 0 <= j < c.len() && c[j] == i as usize;
                assert(j != k);
                assert(c2[j] == i as usize);
            }
            lemma_count_positions(t, c2);
        } else {
            assert forall|a: int| 0 <= a < c.len() implies (#[trigger] c[a]) < t.len() && t[c[a] as int].enabled by {
                assert(s[c[a] as int].enabled);
            }
            lemma_count_positions(t, c);
        }
    }
}

} // verus!
