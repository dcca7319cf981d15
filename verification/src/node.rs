//! Decisions of the network node: which servers have stopped answering,
//! and which users are to be told of a change to network state.

use vstd::prelude::*;
use crate::id::{EpochId, ServerId, UserId};
use crate::server::management::ShutdownAction;

verus! {

/// An error in handling a change to network state.
#[derive(Debug)]
pub enum HandlerError {
    /// An object the change refers to could not be found
    LookupError(String),
    /// An object identifier of the wrong type
    WrongIdType(String),
}

/// How the node stops when told to: `received` is the action it was told,
/// or `None` when the shutdown signal was lost, which counts as a shutdown.
/// Returns the action, and whether to announce to the network that this
/// server has quit: so for a shutdown or a restart, which start again from a
/// clean slate, and not for an upgrade, after which the new process carries
/// on as the same server.
pub fn node_shutdown(received: Option<ShutdownAction>) -> (r: (ShutdownAction, bool))
    ensures
        r == match received {
            None => (ShutdownAction::Shutdown, true),
            Some(ShutdownAction::Upgrade) => (ShutdownAction::Upgrade, false),
            Some(a) => (a, true),
        },
{
    match received {
        None => (ShutdownAction::Shutdown, true),
        Some(ShutdownAction::Upgrade) => (ShutdownAction::Upgrade, false),
        Some(a) => (a, true),
    }
}

/// What the node reads of a server to decide whether it is still alive.
#[derive(Clone, Copy, Debug, PartialEq, Eq, Structural)]
pub struct ServerPingInfo {
    pub id: ServerId,
    pub epoch: EpochId,
    /// When the server last sent a ping, in seconds since the epoch
    pub last_ping: i64,
}

/// The servers of `s` whose last ping is more than `pingout` seconds before
/// `now`, in order, by identifier and epoch.
pub open spec fn pinged_out(now: i64, pingout: i64, s: Seq<ServerPingInfo>) -> Seq<(ServerId, EpochId)>
    decreases s.len(),
{
    if s.len() == 0 {
        Seq::empty()
    } else if now - s.last().last_ping > pingout {
        pinged_out(now, pingout, s.drop_last()).push((s.last().id, s.last().epoch))
    } else {
        pinged_out(now, pingout, s.drop_last())
    }
}

/// Pinging out keeps exactly the stale servers, in order: each server
/// given back was given with a last ping more than `pingout` seconds before
/// `now`, each such server is given back, and never more servers than were
/// given.
pub proof fn law_ping_out_takes_the_stale(now: i64, pingout: i64, s: Seq<ServerPingInfo>)
    ensures
        forall|k: int| 0 <= k < pinged_out(now, pingout, s).len() ==> exists|i: int| 0 <= i < s.len()
            && (#[trigger] s[i]).id == (#[trigger] pinged_out(now, pingout, s)[k]).0 && s[i].epoch == pinged_out(now, pingout, s)[k].1
            && now - s[i].last_ping > pingout,
        forall|i: int| 0 <= i < s.len() && now - (#[trigger] s[i]).last_ping > pingout
            ==> pinged_out(now, pingout, s).contains((s[i].id, s[i].epoch)),
        pinged_out(now, pingout, s).len() <= s.len(),
    decreases s.len(),
{
    if s.len() > 0 {
        let t = s.drop_last();
        law_ping_out_takes_the_stale(now, pingout, t);
        let r = pinged_out(now, pingout, s);
        let q = pinged_out(now, pingout, t);
        assert forall|k: int| 0 <= k < r.len() implies exists|i: int| 0 <= i < s.len()
            && (#[trigger] s[i]).id == (#[trigger] r[k]).0 && s[i].epoch == r[k].1 && now - s[i].last_ping > pingout by {
            if k < q.len() {
                assert(r[k] == q[k]);
                let i = choose|i: int| 0 <= i < t.len() && (#[trigger] t[i]).id == q[k].0 && t[i].epoch == q[k].1
                    && now - t[i].last_ping > pingout;
                assert(s[i] == t[i]);
            } else {
                assert(s[s.len() - 1] == s.last());
            }
        }
        assert forall|i: int| 0 <= i < s.len() && now - (#[trigger] s[i]).last_ping > pingout
            implies r.contains((s[i].id, s[i].epoch)) by {
            if i < t.len() {
                assert(t[i] == s[i]);
                let k = choose|k: int| 0 <= k < q.len() && q[k] == (t[i].id, t[i].epoch);
                assert(r[k] == q[k]);
            } else {
                assert(r[r.len() - 1] == (s[i].id, s[i].epoch));
            }
        }
    }
}

/// The servers to be declared gone at time `now`: those whose last ping is
/// more than `pingout_duration` seconds old.
pub fn servers_to_ping_out(now: i64, pingout_duration: i64, servers: &Vec<ServerPingInfo>) -> (r: Vec<(ServerId, EpochId)>)
    requires
        forall|i: int| 0 <= i < servers@.len() ==> i64::MIN <= now - (#[trigger] servers@[i]).last_ping <= i64::MAX,
    ensures
        r@ == pinged_out(now, pingout_duration, servers@),
{
    let mut out: Vec<(ServerId, EpochId)> = Vec::new();
    let mut i: usize = 0;
    while i < servers.len()
        invariant
            i <= servers@.len(),
            forall|k: int| 0 <= k < servers@.len() ==> i64::MIN <= now - (#[trigger] servers@[k]).last_ping <= i64::MAX,
            out@ == pinged_out(now, pingout_duration, servers@.take(i as int)),
        decreases servers@.len() - i,
    {
        let s = servers[i];
        proof {
            assert(servers@.take(i + 1).drop_last() =~= servers@.take(i as int));
            assert(servers@.take(i + 1).last() == s);
        }
        if now - s.last_ping > pingout_duration {
            out.push((s.id, s.epoch));
        }
        i = i + 1;
    }
    proof {
        assert(servers@.take(servers@.len() as int) =~= servers@);
    }
    out
}

/// Who is to be told of a change to network state, as read from the network.
#[derive(Debug)]
pub enum UpdateAudience {
    /// Nobody
    Nobody,
    /// One user
    User(UserId),
    /// The members of a channel
    Members(Vec<UserId>),
    /// The members of a channel, each with whether the policy lets it see
    /// changes to the list concerned
    ListWatchers(Vec<(UserId, bool)>),
    /// The members of a channel and a user who has just left it
    MembersAnd(Vec<UserId>, UserId),
    /// A user and the members of each channel the user is in
    Neighbours(UserId, Vec<Vec<UserId>>),
    /// The members of each of some channels
    ChannelsMembers(Vec<Vec<UserId>>),
    /// The target of a private message, and its source if known
    PrivateMessage { target: UserId, source: Option<UserId> },
}

/// Every user in one of the groups.
pub open spec fn all_members(groups: Seq<Vec<UserId>>) -> Set<UserId> {
    Set::new(|u: UserId| exists|i: int, j: int| 0 <= i < groups.len() && 0 <= j < groups[i]@.len() && groups[i]@[j] == u)
}

/// No user occurs twice in `s`.
pub open spec fn no_repeats(s: Seq<UserId>) -> bool {
    forall|a: int, b: int| 0 <= a < b < s.len() ==> s[a] != s[b]
}

/// The users whose flag is set, in order.
pub open spec fn watchers(s: Seq<(UserId, bool)>) -> Seq<UserId>
    decreases s.len(),
{
    if s.len() == 0 {
        Seq::empty()
    } else if s.last().1 {
        watchers(s.drop_last()).push(s.last().0)
    } else {
        watchers(s.drop_last())
    }
}

/// `r` is who is to be told for audience `a`. Where the audience is a
/// union of groups, each user is told once and no order is promised.
pub open spec fn notified(a: UpdateAudience, r: Seq<UserId>) -> bool {
    match a {
        UpdateAudience::Nobody => r.len() == 0,
        UpdateAudience::User(u) => r == seq![u],
        UpdateAudience::Members(m) => r == m@,
        UpdateAudience::ListWatchers(m) => r == watchers(m@),
        UpdateAudience::MembersAnd(m, u) => r == m@.push(u),
        UpdateAudience::Neighbours(u, groups) => no_repeats(r) && r.to_set() == all_members(groups@).insert(u),
        UpdateAudience::ChannelsMembers(groups) => no_repeats(r) && r.to_set() == all_members(groups@),
        UpdateAudience::PrivateMessage { target, source } => r == match source {
            Some(s) => if s != target { seq![target, s] } else { seq![target] },
            None => seq![target],
        },
    }
}

/// Who is told of a change to a user seen by its channels: the user and
/// every member of each of its channels, each once, and nobody else.
pub proof fn law_neighbours_notified(u: UserId, g: Vec<Vec<UserId>>, r: Seq<UserId>)
    requires
        notified(UpdateAudience::Neighbours(u, g), r),
    ensures
        r.contains(u),
        forall|i: int, j: int| 0 <= i < g@.len() && 0 <= j < g@[i]@.len() ==> r.contains(#[trigger] g@[i]@[j]),
        forall|k: int| 0 <= k < r.len() ==> #[trigger] r[k] == u || all_members(g@).contains(r[k]),
        no_repeats(r),
{
    assert(r.to_set().contains(u));
    assert forall|i: int, j: int| 0 <= i < g@.len() && 0 <= j < g@[i]@.len() implies r.contains(#[trigger] g@[i]@[j]) by {
        assert(all_members(g@).contains(g@[i]@[j]));
        assert(r.to_set().contains(g@[i]@[j]));
    }
    assert forall|k: int| 0 <= k < r.len() implies #[trigger] r[k] == u || all_members(g@).contains(r[k]) by {
        assert(r.contains(r[k]));
        assert(r.to_set().contains(r[k]));
    }
}

/// Who is told of a change seen by some channels: every member of each of
/// them, each once, and nobody else.
pub proof fn law_channel_members_notified(g: Vec<Vec<UserId>>, r: Seq<UserId>)
    requires
        notified(UpdateAudience::ChannelsMembers(g), r),
    ensures
        forall|i: int, j: int| 0 <= i < g@.len() && 0 <= j < g@[i]@.len() ==> r.contains(#[trigger] g@[i]@[j]),
        forall|k: int| 0 <= k < r.len() ==> all_members(g@).contains(#[trigger] r[k]),
        no_repeats(r),
{
    assert forall|i: int, j: int| 0 <= i < g@.len() && 0 <= j < g@[i]@.len() implies r.contains(#[trigger] g@[i]@[j]) by {
        assert(all_members(g@).contains(g@[i]@[j]));
        assert(r.to_set().contains(g@[i]@[j]));
    }
    assert forall|k: int| 0 <= k < r.len() implies all_members(g@).contains(#[trigger] r[k]) by {
        assert(r.contains(r[k]));
        assert(r.to_set().contains(r[k]));
    }
}

/// Who is told of a private message: its target first, then its source
/// when known, each once.
pub proof fn law_private_message_notified(target: UserId, source: Option<UserId>, r: Seq<UserId>)
    requires
        notified(UpdateAudience::PrivateMessage { target, source }, r),
    ensures
        r.len() >= 1 && r[0] == target,
        source matches Some(s) ==> r.contains(s),
        no_repeats(r),
        r.len() <= 2,
{
    if let Some(s) = source {
        if s != target {
            assert(r[1] == s);
        } else {
            assert(r[0] == s);
        }
    }
}

/// Add `u` to `out` unless it is already there.
fn push_new(out: &mut Vec<UserId>, u: UserId)
    requires
        no_repeats(old(out)@),
    ensures
        no_repeats(final(out)@),
        final(out)@.to_set() == old(out)@.to_set().insert(u),
{
    let ghost before = out@;
    let mut i: usize = 0;
    while i < out.len()
        invariant
            i <= out@.len(),
            out@ == before,
            no_repeats(before),
            forall|j: int| 0 <= j < i ==> out@[j] != u,
        decreases out@.len() - i,
    {
        if out[i] == u {
            proof {
                assert(before.to_set().contains(u));
                assert(before.to_set().insert(u) =~= before.to_set());
            }
            return;
        }
        i = i + 1;
    }
    out.push(u);
    proof {
        assert(out@.to_set() =~= before.to_set().insert(u)) by {
            assert forall|x: UserId| #[trigger] out@.contains(x) <==> (before.contains(x) || x == u) by {
                if out@.contains(x) {
                    let k = choose|k: int| 0 <= k < out@.len() && out@[k] == x;
                    if k < before.len() {
                        assert(before[k] == x);
                    }
                }
                if before.contains(x) {
                    let k = choose|k: int| 0 <= k < before.len() && before[k] == x;
                    assert(out@[k] == x);
                }
                if x == u {
                    assert(out@[before.len() as int] == u);
                }
            }
        }
    }
}

proof fn lemma_take_one_more(g: Seq<UserId>, j: int)
    requires
        0 <= j < g.len(),
    ensures
        g.take(j + 1).to_set() == g.take(j).to_set().insert(g[j]),
{
    let t1 = g.take(j + 1);
    let t0 = g.take(j);
    assert forall|x: UserId| #[trigger] t1.contains(x) <==> (t0.contains(x) || x == g[j]) by {
        if t1.contains(x) {
            let k = choose|k: int| 0 <= k < t1.len() && t1[k] == x;
            if k < j {
                assert(t0[k] == x);
            }
        }
        if t0.contains(x) {
            let k = choose|k: int| 0 <= k < t0.len() && t0[k] == x;
            assert(t1[k] == x);
        }
        if x == g[j] {
            assert(t1[j] == x);
        }
    }
    assert(t1.to_set() =~= t0.to_set().insert(g[j]));
}

proof fn lemma_members_one_more(groups: Seq<Vec<UserId>>, i: int)
    requires
        0 <= i < groups.len(),
    ensures
        all_members(groups.take(i + 1)) == all_members(groups.take(i)).union(groups[i]@.to_set()),
{
    let g = groups[i]@;
    let t1 = groups.take(i + 1);
    let t0 = groups.take(i);
    assert forall|x: UserId| #[trigger] all_members(t1).contains(x) <==> (all_members(t0).contains(x) || g.contains(x)) by {
        if all_members(t1).contains(x) {
            let (a, b) = choose|a: int, b: int| 0 <= a < t1.len() && 0 <= b < t1[a]@.len() && t1[a]@[b] == x;
            if a < i {
                assert(t0[a]@[b] == x);
            } else {
                assert(g[b] == x);
            }
        }
        if all_members(t0).contains(x) {
            let (a, b) = choose|a: int, b: int| 0 <= a < t0.len() && 0 <= b < t0[a]@.len() && t0[a]@[b] == x;
            assert(t1[a]@[b] == x);
        }
        if g.contains(x) {
            let b = choose|b: int| 0 <= b < g.len() && g[b] == x;
            assert(t1[i]@[b] == x);
        }
    }
    assert(all_members(t1) =~= all_members(t0).union(g.to_set()));
}

/// Every user of the groups, each once.
fn union_of(groups: &Vec<Vec<UserId>>, out: &mut Vec<UserId>)
    requires
        no_repeats(old(out)@),
    ensures
        no_repeats(final(out)@),
        final(out)@.to_set() == old(out)@.to_set().union(all_members(groups@)),
{
    let ghost start = out@.to_set();
    let mut i: usize = 0;
    while i < groups.len()
        invariant
            i <= groups@.len(),
            no_repeats(out@),
            out@.to_set() == start.union(all_members(groups@.take(i as int))),
        decreases groups@.len() - i,
    {
        let mut j: usize = 0;
        while j < groups[i].len()
            invariant
                i < groups@.len(),
                j <= groups@[i as int]@.len(),
                no_repeats(out@),
                out@.to_set() == start.union(all_members(groups@.take(i as int))).union(groups@[i as int]@.take(j as int).to_set()),
            decreases groups@[i as int]@.len() - j,
        {
            push_new(out, groups[i][j]);
            proof {
                lemma_take_one_more(groups@[i as int]@, j as int);
                assert(out@.to_set() =~= start.union(all_members(groups@.take(i as int))).union(groups@[i as int]@.take(j + 1).to_set()));
            }
            j = j + 1;
        }
        proof {
            let g = groups@[i as int]@;
            assert(g.take(g.len() as int) =~= g);
            lemma_members_one_more(groups@, i as int);
            assert(out@.to_set() =~= start.union(all_members(groups@.take(i + 1))));
        }
        i = i + 1;
    }
    proof {
        assert(groups@.take(groups@.len() as int) =~= groups@);
    }
}

/// The users to be told of a change to network state, given who it concerns.
pub fn users_to_notify(audience: &UpdateAudience) -> (r: Vec<UserId>)
    ensures
        notified(*audience, r@),
{
    match audience {
        UpdateAudience::Nobody => Vec::new(),
        UpdateAudience::User(u) => {
            let mut v = Vec::new();
            v.push(*u);
            proof {
                assert(v@ =~= seq![*u]);
            }
            v
        },
        UpdateAudience::Members(m) => m.clone(),
        UpdateAudience::ListWatchers(m) => {
            let mut out: Vec<UserId> = Vec::new();
            let mut i: usize = 0;
            while i < m.len()
                invariant
                    i <= m@.len(),
                    out@ == watchers(m@.take(i as int)),
                decreases m@.len() - i,
            {
                proof {
                    assert(m@.take(i + 1).drop_last() =~= m@.take(i as int));
                }
                if m[i].1 {
                    out.push(m[i].0);
                }
                i = i + 1;
            }
            proof {
                assert(m@.take(m@.len() as int) =~= m@);
            }
            out
        },
        UpdateAudience::MembersAnd(m, u) => {
            let mut v = m.clone();
            v.push(*u);
            v
        },
        UpdateAudience::Neighbours(u, groups) => {
            let mut out: Vec<UserId> = Vec::new();
            out.push(*u);
            proof {
                assert(out@.to_set() =~= Set::<UserId>::empty().insert(*u)) by {
                    assert(out@[0] == *u);
                }
            }
            union_of(groups, &mut out);
            proof {
                assert(out@.to_set() =~= all_members(groups@).insert(*u));
            }
            out
        },
        UpdateAudience::ChannelsMembers(groups) => {
            let mut out: Vec<UserId> = Vec::new();
            proof {
                assert(out@.to_set() =~= Set::<UserId>::empty());
            }
            union_of(groups, &mut out);
            proof {
                assert(out@.to_set() =~= all_members(groups@));
            }
            out
        },
        UpdateAudience::PrivateMessage { target, source } => {
            let mut v = Vec::new();
            v.push(*target);
            match source {
                Some(s) => {
                    if *s != *target {
                        v.push(*s);
                    }
                },
                None => {},
            }
            proof {
                assert(v@ =~= match *source {
                    Some(s) => if s != *target { seq![*target, s] } else { seq![*target] },
                    None => seq![*target],
                });
            }
            v
        },
    }
}

/// The answer to a request to dump the network state, in a build without
/// debugging support.
pub fn dump_network_state() -> (r: String)
    ensures
        r@ == "{\"error\": \"Debug functionality not enabled\"}"@,
{
    "{\"error\": \"Debug functionality not enabled\"}".to_owned()
}

/// The answer to a request to dump the event log, in a build without
/// debugging support.
pub fn dump_events() -> (r: String)
    ensures
        r@ == "{\"error\": \"Debug functionality not enabled\"}"@,
{
    "{\"error\": \"Debug functionality not enabled\"}".to_owned()
}

} // verus!
