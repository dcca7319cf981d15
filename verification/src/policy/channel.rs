//! The standard channel policy: who may join, speak, change modes and
//! manage the lists of a channel.

use vstd::prelude::*;
use crate::id::UserId;
use crate::modes::{ChannelModeFlag, ChannelModeSet, ListModeType, MembershipFlagFlag, MembershipFlagSet, UserModeFlag, UserModeSet};
use crate::policy::access::{ChannelAccessFlag, ChannelAccessSet};
use crate::policy::ban_resolver::{BanResolver, StandardBanResolver, UserMask, hostmask, listed, pattern_views, first_match};
use crate::policy::error::{ChannelPermissionError, PermissionError, PermissionResult, refused_on_channel};
use crate::types::{Pattern, wildcard_matches};
use crate::validated::{ChannelKey, ChannelName, Validated};

verus! {

/// What the channel policy reads of a user, with respect to one channel.
#[derive(Debug)]
pub struct ChannelUser {
    pub id: UserId,
    pub mask: UserMask,
    /// The flags of the role held, in the channel's registration, by the
    /// account the user is logged in to; `None` without such a role
    pub assigned: Option<ChannelAccessSet>,
    /// The user's permissions in the channel; `None` if not in it
    pub membership: Option<MembershipFlagSet>,
    /// Whether the user holds an invitation to the channel
    pub invited: bool,
}

/// What the channel policy reads of a channel.
#[derive(Debug)]
pub struct PolicyChannel {
    pub name: ChannelName,
    pub modes: ChannelModeSet,
    pub key: Option<ChannelKey>,
    pub bans: Vec<Pattern>,
    pub quiets: Vec<Pattern>,
    pub excepts: Vec<Pattern>,
    pub invexes: Vec<Pattern>,
    /// The flags of the channel's built-in op role, if it has one
    pub op_role: Option<ChannelAccessSet>,
    /// The flags of the channel's built-in voice role, if it has one
    pub voice_role: Option<ChannelAccessSet>,
    /// The flags of the channel's built-in role for everyone, if it has one
    pub all_role: Option<ChannelAccessSet>,
}

/// `s` is present and holds `flag`.
pub open spec fn grants(s: Option<ChannelAccessSet>, flag: ChannelAccessFlag) -> bool {
    s matches Some(f) && f@.contains(flag)
}

/// The flags a user holds through being op or voice in the channel: those
/// of the op role for an op, else those of the voice role for a voiced user.
pub open spec fn ephemeral_grants(u: ChannelUser, c: PolicyChannel, flag: ChannelAccessFlag) -> bool {
    match u.membership {
        Some(m) => if m@.contains(MembershipFlagFlag::Op) {
            grants(c.op_role, flag)
        } else if m@.contains(MembershipFlagFlag::Voice) {
            grants(c.voice_role, flag)
        } else {
            false
        },
        None => false,
    }
}

/// The user holds `flag` in the channel: through its account's role, through
/// being op or voice, or because the role for everyone grants it.
pub open spec fn has_access_spec(u: ChannelUser, c: PolicyChannel, flag: ChannelAccessFlag) -> bool {
    grants(u.assigned, flag) || ephemeral_grants(u, c, flag) || grants(c.all_role, flag)
}

/// `r` allows exactly when the user holds `flag`, and otherwise refuses
/// with `UserNotOp`.
pub open spec fn access_result(u: ChannelUser, c: PolicyChannel, flag: ChannelAccessFlag, r: PermissionResult) -> bool {
    if has_access_spec(u, c, flag) {
        r is Ok
    } else {
        refused_on_channel(r, c.name@, ChannelPermissionError::UserNotOp)
    }
}

/// `k` is the same key as the channel's.
pub open spec fn same_key(k: Option<ChannelKey>, ck: Option<ChannelKey>) -> bool {
    match (k, ck) {
        (Some(a), Some(b)) => a@ == b@,
        (None, None) => true,
        _ => false,
    }
}

/// The user matches an entry of the list.
pub open spec fn on_list(u: ChannelUser, list: Seq<Pattern>) -> bool {
    listed(pattern_views(list), hostmask(u.mask))
}

/// The access flag needed to add entries to a list.
pub open spec fn add_flag(t: ListModeType) -> ChannelAccessFlag {
    match t {
        ListModeType::Ban => ChannelAccessFlag::BanAdd,
        ListModeType::Quiet => ChannelAccessFlag::QuietAdd,
        ListModeType::Except => ChannelAccessFlag::ExemptAdd,
        ListModeType::Invex => ChannelAccessFlag::InvexAdd,
    }
}

/// The access flag needed to remove any entry from a list.
pub open spec fn remove_flag(t: ListModeType) -> ChannelAccessFlag {
    match t {
        ListModeType::Ban => ChannelAccessFlag::BanRemoveAny,
        ListModeType::Quiet => ChannelAccessFlag::QuietRemoveAny,
        ListModeType::Except => ChannelAccessFlag::ExemptRemoveAny,
        ListModeType::Invex => ChannelAccessFlag::InvexRemoveAny,
    }
}

/// The access flag needed to view a list.
pub open spec fn view_flag(t: ListModeType) -> ChannelAccessFlag {
    match t {
        ListModeType::Ban => ChannelAccessFlag::BanView,
        ListModeType::Quiet => ChannelAccessFlag::QuietView,
        ListModeType::Except => ChannelAccessFlag::ExemptView,
        ListModeType::Invex => ChannelAccessFlag::InvexView,
    }
}

/// The access flag needed to give or take a member permission, on oneself or on another.
pub open spec fn permission_flag(flag: MembershipFlagFlag, on_self: bool) -> ChannelAccessFlag {
    match (flag, on_self) {
        (MembershipFlagFlag::Op, true) => ChannelAccessFlag::OpSelf,
        (MembershipFlagFlag::Op, false) => ChannelAccessFlag::OpGrant,
        (MembershipFlagFlag::Voice, true) => ChannelAccessFlag::VoiceSelf,
        (MembershipFlagFlag::Voice, false) => ChannelAccessFlag::VoiceGrant,
    }
}

/// Which of a channel's lists a user matches an entry of.
#[derive(Clone, Copy, Debug, PartialEq, Eq, Structural)]
pub struct ListMatches {
    pub ban: bool,
    pub quiet: bool,
    pub except: bool,
    pub invex: bool,
}

/// The lists of `c` that `u` matches.
pub open spec fn list_matches(u: ChannelUser, c: PolicyChannel) -> ListMatches {
    ListMatches {
        ban: on_list(u, c.bans@),
        quiet: on_list(u, c.quiets@),
        except: on_list(u, c.excepts@),
        invex: on_list(u, c.invexes@),
    }
}

/// What joining decides, given the lists the user matches: allowed with
/// `InviteSelf` access; otherwise refused for a wrong key, then for an
/// invite-only channel without an invitation or an invite exception, then
/// for a ban without a ban exception.
pub open spec fn join_decided(u: ChannelUser, c: PolicyChannel, key: Option<ChannelKey>, m: ListMatches, r: PermissionResult) -> bool {
    if has_access_spec(u, c, ChannelAccessFlag::InviteSelf) {
        r is Ok
    } else if c.key is Some && !same_key(key, c.key) {
        refused_on_channel(r, c.name@, ChannelPermissionError::BadChannelKey)
    } else if c.modes@.contains(ChannelModeFlag::InviteOnly) && !u.invited && !m.invex {
        refused_on_channel(r, c.name@, ChannelPermissionError::InviteOnlyChannel)
    } else if m.ban && !m.except {
        refused_on_channel(r, c.name@, ChannelPermissionError::UserIsBanned)
    } else {
        r is Ok
    }
}

/// What joining decides.
pub open spec fn join_result(u: ChannelUser, c: PolicyChannel, key: Option<ChannelKey>, r: PermissionResult) -> bool {
    join_decided(u, c, key, list_matches(u, c), r)
}

/// What sending to a channel decides, given the lists the user matches:
/// refused to a non-member of a `+n` channel; allowed with `AlwaysSend`
/// access; refused to a banned or quieted user without a ban exception;
/// allowed otherwise.
pub open spec fn send_decided(u: ChannelUser, c: PolicyChannel, m: ListMatches, r: PermissionResult) -> bool {
    if c.modes@.contains(ChannelModeFlag::NoExternal) && u.membership is None {
        refused_on_channel(r, c.name@, ChannelPermissionError::CannotSendToChannel)
    } else if has_access_spec(u, c, ChannelAccessFlag::AlwaysSend) {
        r is Ok
    } else if (m.ban || m.quiet) && !m.except {
        refused_on_channel(r, c.name@, ChannelPermissionError::CannotSendToChannel)
    } else {
        r is Ok
    }
}

/// What sending to a channel decides.
pub open spec fn send_result(u: ChannelUser, c: PolicyChannel, r: PermissionResult) -> bool {
    send_decided(u, c, list_matches(u, c), r)
}

/// Giving and taking a member permission are decided alike: the same
/// access flag is needed for both.
pub proof fn law_grant_and_remove_agree(
    u: ChannelUser,
    c: PolicyChannel,
    target: UserId,
    flag: MembershipFlagFlag,
    granted: PermissionResult,
    removed: PermissionResult,
)
    requires
        access_result(u, c, permission_flag(flag, u.id == target), granted),
        access_result(u, c, permission_flag(flag, u.id == target), removed),
    ensures
        granted is Ok <==> removed is Ok,
{
}

/// A ban exception overrides a ban: a user matching an entry of the
/// exception list is never refused as banned, from joining or from speaking.
pub proof fn law_exception_overrides_ban(u: ChannelUser, c: PolicyChannel, key: Option<ChannelKey>, joined: PermissionResult, sent: PermissionResult)
    requires
        on_list(u, c.excepts@),
        join_result(u, c, key, joined),
        send_result(u, c, sent),
    ensures
        !refused_on_channel(joined, c.name@, ChannelPermissionError::UserIsBanned),
        sent is Err ==> c.modes@.contains(ChannelModeFlag::NoExternal) && u.membership is None,
{
}

/// Where a user's access comes from: the access check allows exactly when
/// the role of the user's account holds the flag, or the user is op in the
/// channel and the op role holds it, or is voiced but not op and the voice
/// role holds it, or the role for everyone holds it; otherwise it refuses
/// with `UserNotOp`. In particular the role for everyone grants its flags to
/// every user, whatever the user's account role and membership.
pub proof fn law_access_comes_from_roles(u: ChannelUser, c: PolicyChannel, flag: ChannelAccessFlag, r: PermissionResult)
    requires
        access_result(u, c, flag, r),
    ensures
        grants(c.all_role, flag) ==> r is Ok,
        grants(u.assigned, flag) ==> r is Ok,
        (u.membership matches Some(m) && m@.contains(MembershipFlagFlag::Op) && grants(c.op_role, flag)) ==> r is Ok,
        (u.membership matches Some(m) && !m@.contains(MembershipFlagFlag::Op) && m@.contains(MembershipFlagFlag::Voice)
            && grants(c.voice_role, flag)) ==> r is Ok,
        r is Ok <==> (grants(u.assigned, flag) || grants(c.all_role, flag)
            || (u.membership matches Some(m) && m@.contains(MembershipFlagFlag::Op) && grants(c.op_role, flag))
            || (u.membership matches Some(m) && !m@.contains(MembershipFlagFlag::Op) && m@.contains(MembershipFlagFlag::Voice)
                && grants(c.voice_role, flag))),
        r is Err ==> refused_on_channel(r, c.name@, ChannelPermissionError::UserNotOp),
{
}

/// The user matches a list exactly when some entry of it matches the
/// user's hostmask.
pub proof fn lemma_on_list(u: ChannelUser, l: Seq<Pattern>)
    ensures
        on_list(u, l) <==> exists|i: int| 0 <= i < l.len() && #[trigger] wildcard_matches(l[i]@, hostmask(u.mask)),
{
    let v = pattern_views(l);
    assert forall|i: int| 0 <= i < l.len() implies #[trigger] v[i] == l[i]@ by {}
    if on_list(u, l) {
        let i = choose|i: int| 0 <= i < v.len() && #[trigger] wildcard_matches(v[i], hostmask(u.mask));
        assert(wildcard_matches(l[i]@, hostmask(u.mask)));
    }
    if exists|i: int| 0 <= i < l.len() && #[trigger] wildcard_matches(l[i]@, hostmask(u.mask)) {
        let i = choose|i: int| 0 <= i < l.len() && #[trigger] wildcard_matches(l[i]@, hostmask(u.mask));
        assert(wildcard_matches(v[i], hostmask(u.mask)));
    }
}

/// Each of a channel's lists is matched on its own: whether a user matches
/// the bans, the quiets, the ban exceptions or the invite exceptions
/// depends on that list alone, so two channels with the same entries in one
/// list give the same answer for it, whatever their other lists hold; and
/// the user matches a list exactly when some entry matches its hostmask.
pub proof fn law_lists_matched_separately(u: ChannelUser, c1: PolicyChannel, c2: PolicyChannel)
    ensures
        pattern_views(c1.bans@) == pattern_views(c2.bans@) ==> list_matches(u, c1).ban == list_matches(u, c2).ban,
        pattern_views(c1.quiets@) == pattern_views(c2.quiets@) ==> list_matches(u, c1).quiet == list_matches(u, c2).quiet,
        pattern_views(c1.excepts@) == pattern_views(c2.excepts@) ==> list_matches(u, c1).except == list_matches(u, c2).except,
        pattern_views(c1.invexes@) == pattern_views(c2.invexes@) ==> list_matches(u, c1).invex == list_matches(u, c2).invex,
        list_matches(u, c1).ban <==> exists|i: int| 0 <= i < c1.bans@.len()
            && #[trigger] wildcard_matches(c1.bans@[i]@, hostmask(u.mask)),
        list_matches(u, c1).quiet <==> exists|i: int| 0 <= i < c1.quiets@.len()
            && #[trigger] wildcard_matches(c1.quiets@[i]@, hostmask(u.mask)),
        list_matches(u, c1).except <==> exists|i: int| 0 <= i < c1.excepts@.len()
            && #[trigger] wildcard_matches(c1.excepts@[i]@, hostmask(u.mask)),
        list_matches(u, c1).invex <==> exists|i: int| 0 <= i < c1.invexes@.len()
            && #[trigger] wildcard_matches(c1.invexes@[i]@, hostmask(u.mask)),
{
    lemma_on_list(u, c1.bans@);
    lemma_on_list(u, c1.quiets@);
    lemma_on_list(u, c1.excepts@);
    lemma_on_list(u, c1.invexes@);
}

/// Who may join: a user with `InviteSelf` access always may. Otherwise the
/// user is refused for a wrong key (a channel key, and a different or no
/// key given); else for an invite-only channel without an invitation or a
/// matching invite exception; else for a matching ban without a matching
/// ban exception; and may join in every other case.
pub proof fn law_join_decisions(u: ChannelUser, c: PolicyChannel, key: Option<ChannelKey>, r: PermissionResult)
    requires
        join_result(u, c, key, r),
    ensures
        grants(u.assigned, ChannelAccessFlag::InviteSelf) || grants(c.all_role, ChannelAccessFlag::InviteSelf) ==> r is Ok,
        ({
            let no_bypass = !grants(u.assigned, ChannelAccessFlag::InviteSelf) && !ephemeral_grants(u, c, ChannelAccessFlag::InviteSelf)
                && !grants(c.all_role, ChannelAccessFlag::InviteSelf);
            let wrong_key = match (c.key, key) {
                (Some(k), Some(g)) => k@ != g@,
                (Some(_), None) => true,
                (None, _) => false,
            };
            let shut_out = c.modes@.contains(ChannelModeFlag::InviteOnly) && !u.invited
                && forall|i: int| 0 <= i < c.invexes@.len() ==> !#[trigger] wildcard_matches(c.invexes@[i]@, hostmask(u.mask));
            let banned = (exists|i: int| 0 <= i < c.bans@.len() && #[trigger] wildcard_matches(c.bans@[i]@, hostmask(u.mask)))
                && forall|i: int| 0 <= i < c.excepts@.len() ==> !#[trigger] wildcard_matches(c.excepts@[i]@, hostmask(u.mask));
            &&& (no_bypass && wrong_key ==> refused_on_channel(r, c.name@, ChannelPermissionError::BadChannelKey))
            &&& (no_bypass && !wrong_key && shut_out ==> refused_on_channel(r, c.name@, ChannelPermissionError::InviteOnlyChannel))
            &&& (no_bypass && !wrong_key && !shut_out && banned ==> refused_on_channel(r, c.name@, ChannelPermissionError::UserIsBanned))
            &&& (!wrong_key && !shut_out && !banned ==> r is Ok)
        }),
{
    law_lists_matched_separately(u, c, c);
}

/// Who may speak in a channel: a non-member of a `+n` channel never may.
/// Otherwise a user with `AlwaysSend` access may; a user matching a ban or
/// a quiet and no ban exception may not; and every other user may.
pub proof fn law_send_decisions(u: ChannelUser, c: PolicyChannel, r: PermissionResult)
    requires
        send_result(u, c, r),
    ensures
        ({
            let outside = c.modes@.contains(ChannelModeFlag::NoExternal) && u.membership is None;
            let always = grants(u.assigned, ChannelAccessFlag::AlwaysSend) || ephemeral_grants(u, c, ChannelAccessFlag::AlwaysSend)
                || grants(c.all_role, ChannelAccessFlag::AlwaysSend);
            let silenced = ((exists|i: int| 0 <= i < c.bans@.len() && #[trigger] wildcard_matches(c.bans@[i]@, hostmask(u.mask)))
                || (exists|i: int| 0 <= i < c.quiets@.len() && #[trigger] wildcard_matches(c.quiets@[i]@, hostmask(u.mask))))
                && forall|i: int| 0 <= i < c.excepts@.len() ==> !#[trigger] wildcard_matches(c.excepts@[i]@, hostmask(u.mask));
            &&& (outside ==> refused_on_channel(r, c.name@, ChannelPermissionError::CannotSendToChannel))
            &&& (!outside && always ==> r is Ok)
            &&& (!outside && !always && silenced ==> refused_on_channel(r, c.name@, ChannelPermissionError::CannotSendToChannel))
            &&& (!outside && !silenced ==> r is Ok)
        }),
{
    law_lists_matched_separately(u, c, c);
}

/// Only a ban exception lifts a ban: a user without `InviteSelf` access,
/// giving the right key (or none to a channel without one), to a channel
/// that is not invite-only, who matches a ban and no ban exception, is
/// refused as banned, whatever invite exception it matches.
pub proof fn law_ban_without_exception_refuses(u: ChannelUser, c: PolicyChannel, key: Option<ChannelKey>, r: PermissionResult)
    requires
        join_result(u, c, key, r),
        !grants(u.assigned, ChannelAccessFlag::InviteSelf),
        !ephemeral_grants(u, c, ChannelAccessFlag::InviteSelf),
        !grants(c.all_role, ChannelAccessFlag::InviteSelf),
        c.key is None || same_key(key, c.key),
        !c.modes@.contains(ChannelModeFlag::InviteOnly),
        exists|i: int| 0 <= i < c.bans@.len() && #[trigger] wildcard_matches(c.bans@[i]@, hostmask(u.mask)),
        forall|i: int| 0 <= i < c.excepts@.len() ==> !#[trigger] wildcard_matches(c.excepts@[i]@, hostmask(u.mask)),
    ensures
        refused_on_channel(r, c.name@, ChannelPermissionError::UserIsBanned),
{
    law_lists_matched_separately(u, c, c);
}

/// More access never refuses more: a user whose account role holds at least
/// the flags of another's, with the same membership, is allowed whatever
/// the other is allowed.
pub proof fn law_access_monotone(u: ChannelUser, v: ChannelUser, c: PolicyChannel, flag: ChannelAccessFlag)
    requires
        u.membership == v.membership,
        u.assigned matches Some(a) ==> v.assigned matches Some(b) && a@.subset_of(b@),
        has_access_spec(u, c, flag),
    ensures
        has_access_spec(v, c, flag),
{
}

/// The standard channel policy.
#[derive(Debug)]
pub struct StandardChannelPolicy {
    ban_resolver: StandardBanResolver,
}

/// The standard channel policy holds no state: any two policies are the same
/// value, so each of its methods answers alike on both, whatever the
/// arguments (every method's contract speaks of its arguments alone).
pub proof fn law_channel_policy_holds_no_state(p1: StandardChannelPolicy, p2: StandardChannelPolicy)
    ensures
        p1 == p2,
{
}

/// Whether `s` is present and holds `flag`.
fn grants_flag(s: &Option<ChannelAccessSet>, flag: ChannelAccessFlag) -> (r: bool)
    ensures
        r == grants(*s, flag),
{
    match s {
        Some(f) => f.is_set(flag),
        None => false,
    }
}

/// A refusal on the channel `c` for `reason`.
fn refuse(c: &PolicyChannel, reason: ChannelPermissionError) -> (r: PermissionResult)
    ensures
        refused_on_channel(r, c.name@, reason),
{
    Err(PermissionError::Channel(c.name.duplicate(), reason))
}

/// Whether the user holds `flag` in the channel.
fn has_access(u: &ChannelUser, c: &PolicyChannel, flag: ChannelAccessFlag) -> (r: PermissionResult)
    ensures
        access_result(*u, *c, flag, r),
{
    let assigned = grants_flag(&u.assigned, flag);
    let ephemeral = match &u.membership {
        Some(m) => if m.is_set(MembershipFlagFlag::Op) {
            grants_flag(&c.op_role, flag)
        } else if m.is_set(MembershipFlagFlag::Voice) {
            grants_flag(&c.voice_role, flag)
        } else {
            false
        },
        None => false,
    };
    let default = grants_flag(&c.all_role, flag);
    if assigned || ephemeral || default {
        Ok(())
    } else {
        refuse(c, ChannelPermissionError::UserNotOp)
    }
}

impl StandardChannelPolicy {
    pub fn new() -> (r: StandardChannelPolicy) {
        StandardChannelPolicy { ban_resolver: StandardBanResolver::new() }
    }

    /// Whether the user matches an entry of `list`.
    fn matches_list(&self, u: &ChannelUser, list: &Vec<Pattern>) -> (r: bool)
        ensures
            r == on_list(*u, list@),
    {
        let found = self.ban_resolver.user_matches_list(&u.mask, list);
        proof {
            if let Some(i) = found {
                assert(pattern_views(list@)[i as int] == list@[i as int]@);
            }
        }
        found.is_some()
    }

    /// The lists of the channel whose entries the user matches.
    pub fn user_list_matches(&self, user: &ChannelUser, channel: &PolicyChannel) -> (r: ListMatches)
        ensures
            r == list_matches(*user, *channel),
    {
        ListMatches {
            ban: self.matches_list(user, &channel.bans),
            quiet: self.matches_list(user, &channel.quiets),
            except: self.matches_list(user, &channel.excepts),
            invex: self.matches_list(user, &channel.invexes),
        }
    }

    /// Whether the user may join the channel, giving `key`.
    pub fn can_join(&self, user: &ChannelUser, channel: &PolicyChannel, key: Option<ChannelKey>) -> (r: PermissionResult)
        ensures
            join_result(*user, *channel, key, r),
    {
        let m = self.user_list_matches(user, channel);
        self.join_decision(user, channel, key, m)
    }

    /// Whether the user may join the channel, giving `key`, when it matches
    /// the lists `m`.
    pub fn join_decision(&self, user: &ChannelUser, channel: &PolicyChannel, key: Option<ChannelKey>, m: ListMatches) -> (r: PermissionResult)
        ensures
            join_decided(*user, *channel, key, m, r),
    {
        if has_access(user, channel, ChannelAccessFlag::InviteSelf).is_ok() {
            return Ok(());
        }
        let key_matches = match &key {
            Some(a) => match &channel.key {
                Some(b) => *a.value() == *b.value(),
                None => false,
            },
            None => channel.key.is_none(),
        };
        assert(key_matches == same_key(key, channel.key));
        if channel.key.is_some() && !key_matches {
            return refuse(channel, ChannelPermissionError::BadChannelKey);
        }
        if channel.modes.has_mode(ChannelModeFlag::InviteOnly) && !user.invited && !m.invex {
            return refuse(channel, ChannelPermissionError::InviteOnlyChannel);
        }
        if m.ban && !m.except {
            return refuse(channel, ChannelPermissionError::UserIsBanned);
        }
        Ok(())
    }

    /// Whether the user may send a message to the channel.
    pub fn can_send(&self, user: &ChannelUser, channel: &PolicyChannel, msg: &str) -> (r: PermissionResult)
        ensures
            send_result(*user, *channel, r),
    {
        let m = self.user_list_matches(user, channel);
        self.send_decision(user, channel, m)
    }

    /// Whether the user may send a message to the channel, when it matches
    /// the lists `m`.
    pub fn send_decision(&self, user: &ChannelUser, channel: &PolicyChannel, m: ListMatches) -> (r: PermissionResult)
        ensures
            send_decided(*user, *channel, m, r),
    {
        if channel.modes.has_mode(ChannelModeFlag::NoExternal) && user.membership.is_none() {
            return refuse(channel, ChannelPermissionError::CannotSendToChannel);
        }
        if has_access(user, channel, ChannelAccessFlag::AlwaysSend).is_ok() {
            return Ok(());
        }
        if (m.ban || m.quiet) && !m.except {
            return refuse(channel, ChannelPermissionError::CannotSendToChannel);
        }
        Ok(())
    }

    /// Whether the user, given as it relates to a member's channel, may see
    /// that member, whose user modes are `member_modes`: allowed when the
    /// user is in the channel, else refused when the channel is secret or
    /// the member invisible.
    pub fn can_see_user_on_channel(&self, user: &ChannelUser, channel: &PolicyChannel, member_modes: &UserModeSet) -> (r: PermissionResult)
        ensures
            if user.membership is Some {
                r is Ok
            } else if channel.modes@.contains(ChannelModeFlag::Secret) || member_modes@.contains(UserModeFlag::Invisible) {
                refused_on_channel(r, channel.name@, ChannelPermissionError::UserNotOnChannel)
            } else {
                r is Ok
            },
    {
        if user.membership.is_some() {
            return Ok(());
        }
        if channel.modes.has_mode(ChannelModeFlag::Secret) || member_modes.has_mode(UserModeFlag::Invisible) {
            return refuse(channel, ChannelPermissionError::UserNotOnChannel);
        }
        Ok(())
    }

    /// Whether the user may change a simple mode of the channel.
    pub fn can_change_mode(&self, user: &ChannelUser, channel: &PolicyChannel, mode: ChannelModeFlag) -> (r: PermissionResult)
        ensures
            access_result(*user, *channel, ChannelAccessFlag::SetSimpleMode, r),
    {
        has_access(user, channel, ChannelAccessFlag::SetSimpleMode)
    }

    /// Whether the user may set the topic: on a `+t` channel only with
    /// `Topic` access.
    pub fn can_set_topic(&self, user: &ChannelUser, channel: &PolicyChannel, topic: &str) -> (r: PermissionResult)
        ensures
            if channel.modes@.contains(ChannelModeFlag::TopicLock) {
                access_result(*user, *channel, ChannelAccessFlag::Topic, r)
            } else {
                r is Ok
            },
    {
        if channel.modes.has_mode(ChannelModeFlag::TopicLock) {
            has_access(user, channel, ChannelAccessFlag::Topic)
        } else {
            Ok(())
        }
    }

    fn permission_access(flag: MembershipFlagFlag, on_self: bool) -> (r: ChannelAccessFlag)
        ensures
            r == permission_flag(flag, on_self),
    {
        match (flag, on_self) {
            (MembershipFlagFlag::Op, true) => ChannelAccessFlag::OpSelf,
            (MembershipFlagFlag::Op, false) => ChannelAccessFlag::OpGrant,
            (MembershipFlagFlag::Voice, true) => ChannelAccessFlag::VoiceSelf,
            (MembershipFlagFlag::Voice, false) => ChannelAccessFlag::VoiceGrant,
        }
    }

    /// Whether the user may give the member permission `flag` to `target`.
    pub fn can_grant_permission(&self, user: &ChannelUser, channel: &PolicyChannel, target: UserId, flag: MembershipFlagFlag) -> (r: PermissionResult)
        ensures
            access_result(*user, *channel, permission_flag(flag, user.id == target), r),
    {
        has_access(user, channel, Self::permission_access(flag, user.id == target))
    }

    /// Whether the user may take the member permission `flag` from `target`.
    pub fn can_remove_permission(&self, user: &ChannelUser, channel: &PolicyChannel, target: UserId, flag: MembershipFlagFlag) -> (r: PermissionResult)
        ensures
            access_result(*user, *channel, permission_flag(flag, user.id == target), r),
    {
        has_access(user, channel, Self::permission_access(flag, user.id == target))
    }

    /// Whether `mask` may be an entry of a list: any mask may.
    pub fn validate_ban_mask(&self, mask: &str, mode_type: ListModeType, channel: &PolicyChannel) -> (r: PermissionResult)
        ensures
            r is Ok,
    {
        Ok(())
    }

    /// Whether the user may add an entry to the list.
    pub fn can_set_ban(&self, user: &ChannelUser, channel: &PolicyChannel, mode_type: ListModeType, mask: &str) -> (r: PermissionResult)
        ensures
            access_result(*user, *channel, add_flag(mode_type), r),
    {
        let flag = match mode_type {
            ListModeType::Ban => ChannelAccessFlag::BanAdd,
            ListModeType::Quiet => ChannelAccessFlag::QuietAdd,
            ListModeType::Except => ChannelAccessFlag::ExemptAdd,
            ListModeType::Invex => ChannelAccessFlag::InvexAdd,
        };
        has_access(user, channel, flag)
    }

    /// Whether the user may remove an entry from the list.
    pub fn can_unset_ban(&self, user: &ChannelUser, channel: &PolicyChannel, mode_type: ListModeType, mask: &str) -> (r: PermissionResult)
        ensures
            access_result(*user, *channel, remove_flag(mode_type), r),
    {
        let flag = match mode_type {
            ListModeType::Ban => ChannelAccessFlag::BanRemoveAny,
            ListModeType::Quiet => ChannelAccessFlag::QuietRemoveAny,
            ListModeType::Except => ChannelAccessFlag::ExemptRemoveAny,
            ListModeType::Invex => ChannelAccessFlag::InvexRemoveAny,
        };
        has_access(user, channel, flag)
    }

    fn view_access(mode_type: ListModeType) -> (r: ChannelAccessFlag)
        ensures
            r == view_flag(mode_type),
    {
        match mode_type {
            ListModeType::Ban => ChannelAccessFlag::BanView,
            ListModeType::Quiet => ChannelAccessFlag::QuietView,
            ListModeType::Except => ChannelAccessFlag::ExemptView,
            ListModeType::Invex => ChannelAccessFlag::InvexView,
        }
    }

    /// Whether the user may view the list.
    pub fn can_query_list(&self, user: &ChannelUser, channel: &PolicyChannel, mode_type: ListModeType) -> (r: PermissionResult)
        ensures
            access_result(*user, *channel, view_flag(mode_type), r),
    {
        has_access(user, channel, Self::view_access(mode_type))
    }

    /// Whether a member, given as the user it is and its channel, should be
    /// told of changes to the list: when it may view the list, or is op.
    pub fn should_see_list_change(&self, member: &ChannelUser, channel: &PolicyChannel, mode_type: ListModeType) -> (r: bool)
        ensures
            r == (has_access_spec(*member, *channel, view_flag(mode_type))
                || (member.membership matches Some(m) && m@.contains(MembershipFlagFlag::Op))),
    {
        let allowed = has_access(member, channel, Self::view_access(mode_type)).is_ok();
        let is_op = match &member.membership {
            Some(m) => m.is_set(MembershipFlagFlag::Op),
            None => false,
        };
        allowed || is_op
    }

    /// Whether the user may set or change the channel's key.
    pub fn can_set_key(&self, user: &ChannelUser, channel: &PolicyChannel, new_key: Option<&ChannelKey>) -> (r: PermissionResult)
        ensures
            access_result(*user, *channel, ChannelAccessFlag::SetKey, r),
    {
        has_access(user, channel, ChannelAccessFlag::SetKey)
    }

    /// Whether the user may invite `target` to the channel.
    pub fn can_invite(&self, user: &ChannelUser, channel: &PolicyChannel, target: UserId) -> (r: PermissionResult)
        ensures
            access_result(*user, *channel, ChannelAccessFlag::InviteOther, r),
    {
        has_access(user, channel, ChannelAccessFlag::InviteOther)
    }
}

} // verus!
