use sable_network::id::{ChannelId, EpochId, ObjectIdParts, ServerId, UserId};
use sable_network::modes::{ChannelModeFlag, ChannelModeSet, ListModeType, MembershipFlagFlag, MembershipFlagSet, UserModeFlag, UserModeSet};
use sable_network::policy::access::{ChannelAccessFlag, ChannelAccessSet};
use sable_network::policy::ban_resolver::{hostmask_text, BanResolver, StandardBanResolver, UserMask};
use sable_network::policy::channel::{ChannelUser, ListMatches, PolicyChannel, StandardChannelPolicy};
use sable_network::policy::debugging::StandardDebuggingPolicy;
use sable_network::policy::error::{ChannelPermissionError, PermissionError, RegistrationPermissionError, UserPermissionError};
use sable_network::policy::oper::{OperAuthenticationService, OperConfig, StandardOperPolicy};
use sable_network::policy::registration::{RegistrationAccess, StandardRegistrationPolicy};
use sable_network::policy::user::StandardUserPolicy;
use sable_network::policy::StandardPolicyService;
use sable_network::types::Pattern;
use sable_network::validated::{ChannelKey, ChannelName, Validated};

fn uid(n: u64) -> UserId {
    UserId(ObjectIdParts { server: ServerId(1), epoch: EpochId(1), local: n })
}

fn user(n: u64, nick: &str) -> ChannelUser {
    ChannelUser {
        id: uid(n),
        mask: UserMask { nick: nick.to_string(), user: "u".to_string(), visible_host: "host.example".to_string() },
        assigned: None,
        membership: None,
        invited: false,
    }
}

fn flags(f: &[ChannelAccessFlag]) -> ChannelAccessSet {
    ChannelAccessSet::from_flags(f.to_vec())
}

fn pats(p: &[&str]) -> Vec<Pattern> {
    p.iter().map(|s| Pattern::new(s.to_string())).collect()
}

fn channel() -> PolicyChannel {
    PolicyChannel {
        name: ChannelName::convert("#room").unwrap(),
        modes: ChannelModeSet::new(),
        key: None,
        bans: Vec::new(),
        quiets: Vec::new(),
        excepts: Vec::new(),
        invexes: Vec::new(),
        op_role: Some(flags(&[ChannelAccessFlag::InviteSelf, ChannelAccessFlag::AlwaysSend, ChannelAccessFlag::SetSimpleMode, ChannelAccessFlag::Topic, ChannelAccessFlag::OpGrant, ChannelAccessFlag::BanView])),
        voice_role: Some(flags(&[ChannelAccessFlag::AlwaysSend])),
        all_role: None,
    }
}

fn channel_error(r: Result<(), PermissionError>) -> ChannelPermissionError {
    match r {
        Err(PermissionError::Channel(name, e)) => {
            assert_eq!(name.value(), "#room");
            e
        }
        _ => panic!("expected a channel refusal"),
    }
}

fn with_modes(mut c: PolicyChannel, m: &[ChannelModeFlag]) -> PolicyChannel {
    for f in m {
        c.modes.set(*f, true);
    }
    c
}

fn member(mut u: ChannelUser, f: &[MembershipFlagFlag]) -> ChannelUser {
    let mut s = MembershipFlagSet::new();
    for x in f {
        s.set(*x, true);
    }
    u.membership = Some(s);
    u
}

#[test]
fn anyone_may_join_an_open_channel() {
    let p = StandardChannelPolicy::new();
    assert!(p.can_join(&user(1, "alice"), &channel(), None).is_ok());
}

#[test]
fn a_keyed_channel_needs_its_key() {
    let p = StandardChannelPolicy::new();
    let mut c = channel();
    c.key = Some(ChannelKey::convert("pw").unwrap());
    assert_eq!(channel_error(p.can_join(&user(1, "alice"), &c, None)), ChannelPermissionError::BadChannelKey);
    assert_eq!(channel_error(p.can_join(&user(1, "alice"), &c, Some(ChannelKey::convert("no").unwrap()))), ChannelPermissionError::BadChannelKey);
    assert!(p.can_join(&user(1, "alice"), &c, Some(ChannelKey::convert("pw").unwrap())).is_ok());
}

#[test]
fn invite_only_needs_an_invitation_or_exception() {
    let p = StandardChannelPolicy::new();
    let mut c = with_modes(channel(), &[ChannelModeFlag::InviteOnly]);
    assert_eq!(channel_error(p.can_join(&user(1, "alice"), &c, None)), ChannelPermissionError::InviteOnlyChannel);
    let mut invited = user(1, "alice");
    invited.invited = true;
    assert!(p.can_join(&invited, &c, None).is_ok());
    c.invexes = pats(&["alice!*@*"]);
    assert!(p.can_join(&user(1, "ALICE"), &c, None).is_ok());
}

#[test]
fn bans_apply_unless_excepted() {
    let p = StandardChannelPolicy::new();
    let mut c = channel();
    c.bans = pats(&["*!*@host.example"]);
    assert_eq!(channel_error(p.can_join(&user(1, "alice"), &c, None)), ChannelPermissionError::UserIsBanned);
    assert_eq!(channel_error(p.can_send(&user(1, "alice"), &c, "hi")), ChannelPermissionError::CannotSendToChannel);
    c.excepts = pats(&["alice!*@*"]);
    assert!(p.can_join(&user(1, "alice"), &c, None).is_ok());
    assert!(p.can_send(&user(1, "alice"), &c, "hi").is_ok());
    let mut assigned = user(2, "bob");
    assigned.assigned = Some(flags(&[ChannelAccessFlag::InviteSelf]));
    assert!(p.can_join(&assigned, &c, None).is_ok());
}

#[test]
fn sending_needs_membership_on_no_external_channels() {
    let p = StandardChannelPolicy::new();
    let mut c = with_modes(channel(), &[ChannelModeFlag::NoExternal]);
    assert_eq!(channel_error(p.can_send(&user(1, "alice"), &c, "hi")), ChannelPermissionError::CannotSendToChannel);
    assert!(p.can_send(&member(user(1, "alice"), &[]), &c, "hi").is_ok());
    c.quiets = pats(&["alice!*@*"]);
    assert_eq!(channel_error(p.can_send(&member(user(1, "alice"), &[]), &c, "hi")), ChannelPermissionError::CannotSendToChannel);
    assert!(p.can_send(&member(user(1, "alice"), &[MembershipFlagFlag::Voice]), &c, "hi").is_ok());
}

#[test]
fn ops_get_the_op_role() {
    let p = StandardChannelPolicy::new();
    let c = with_modes(channel(), &[ChannelModeFlag::TopicLock]);
    let op = member(user(1, "op"), &[MembershipFlagFlag::Op]);
    let plain = member(user(2, "plain"), &[]);
    assert!(p.can_change_mode(&op, &c, ChannelModeFlag::Secret).is_ok());
    assert_eq!(channel_error(p.can_change_mode(&plain, &c, ChannelModeFlag::Secret)), ChannelPermissionError::UserNotOp);
    assert!(p.can_set_topic(&op, &c, "t").is_ok());
    assert_eq!(channel_error(p.can_set_topic(&plain, &c, "t")), ChannelPermissionError::UserNotOp);
    assert!(p.can_set_topic(&plain, &channel(), "t").is_ok());
    assert!(p.can_grant_permission(&op, &c, uid(2), MembershipFlagFlag::Op).is_ok());
    assert!(p.can_remove_permission(&op, &c, uid(2), MembershipFlagFlag::Op).is_ok());
    assert!(p.can_grant_permission(&op, &c, uid(1), MembershipFlagFlag::Op).is_err());
    assert!(p.can_query_list(&op, &c, ListModeType::Ban).is_ok());
    assert!(p.can_query_list(&op, &c, ListModeType::Quiet).is_err());
    assert!(p.can_set_ban(&op, &c, ListModeType::Ban, "*!*@*").is_err());
    assert!(p.can_unset_ban(&op, &c, ListModeType::Ban, "*!*@*").is_err());
    assert!(p.can_set_key(&op, &c, None).is_err());
    assert!(p.can_invite(&op, &c, uid(2)).is_err());
    assert!(p.validate_ban_mask("x", ListModeType::Ban, &c).is_ok());
    assert!(p.should_see_list_change(&op, &c, ListModeType::Quiet));
    assert!(!p.should_see_list_change(&plain, &c, ListModeType::Ban));
}

#[test]
fn hidden_members_are_seen_only_from_inside() {
    let p = StandardChannelPolicy::new();
    let secret = with_modes(channel(), &[ChannelModeFlag::Secret]);
    let outsider = user(1, "out");
    let visible = UserModeSet::new();
    let mut invisible = UserModeSet::new();
    invisible.set(UserModeFlag::Invisible, true);
    assert_eq!(channel_error(p.can_see_user_on_channel(&outsider, &secret, &visible)), ChannelPermissionError::UserNotOnChannel);
    assert_eq!(channel_error(p.can_see_user_on_channel(&outsider, &channel(), &invisible)), ChannelPermissionError::UserNotOnChannel);
    assert!(p.can_see_user_on_channel(&outsider, &channel(), &visible).is_ok());
    assert!(p.can_see_user_on_channel(&member(user(1, "in"), &[]), &secret, &invisible).is_ok());
}

#[test]
fn ban_resolver_matches_the_hostmask() {
    let r = StandardBanResolver::new();
    let m = UserMask { nick: "Nick".to_string(), user: "id".to_string(), visible_host: "h.example".to_string() };
    assert_eq!(hostmask_text(&m), "Nick!id@h.example");
    assert!(r.user_matches_entry(&m, &Pattern::new("nick!*@*".to_string())));
    assert_eq!(r.user_matches_list(&m, &pats(&["x!*@*", "*@h.example", "*"])), Some(1));
    assert_eq!(r.user_matches_list(&m, &pats(&["x!*@*"])), None);
}

#[test]
fn registration_access_follows_roles() {
    let p = StandardRegistrationPolicy::new();
    let viewer = RegistrationAccess { role: Some(flags(&[ChannelAccessFlag::AccessView])) };
    assert!(p.can_view_access(&Some(viewer)).is_ok());
    assert!(matches!(p.can_view_access(&None), Err(PermissionError::Registration(RegistrationPermissionError::NotLoggedIn))));
    assert!(matches!(p.can_view_roles(&Some(RegistrationAccess { role: None })), Err(PermissionError::Registration(RegistrationPermissionError::NoAccess))));
    let editor = RegistrationAccess { role: Some(flags(&[ChannelAccessFlag::AccessEdit, ChannelAccessFlag::RoleEdit, ChannelAccessFlag::Topic])) };
    let lower = RegistrationAccess { role: Some(flags(&[ChannelAccessFlag::Topic])) };
    let higher = RegistrationAccess { role: Some(flags(&[ChannelAccessFlag::BanAdd])) };
    assert!(p.can_change_access_for(&editor, &lower).is_ok());
    assert!(p.can_change_access_for(&editor, &RegistrationAccess { role: None }).is_ok());
    assert!(matches!(p.can_change_access_for(&editor, &higher), Err(PermissionError::Registration(RegistrationPermissionError::CantEditHigherRole))));
    assert!(matches!(p.can_change_access_for(&lower, &lower), Err(PermissionError::Registration(RegistrationPermissionError::NoAccess))));
    assert!(p.can_grant_role(&editor, &flags(&[ChannelAccessFlag::Topic])).is_ok());
    assert!(p.can_edit_role(&editor, &flags(&[ChannelAccessFlag::RoleEdit])).is_ok());
    assert!(p.can_create_role(&editor, &flags(&[ChannelAccessFlag::BanAdd])).is_err());
}

#[test]
fn access_sets_dominate_their_subsets() {
    let big = flags(&[ChannelAccessFlag::Topic, ChannelAccessFlag::BanAdd]);
    let small = flags(&[ChannelAccessFlag::Topic]);
    assert!(big.dominates(&small));
    assert!(!small.dominates(&big));
    assert!(big.dominates(&big));
    let mut grown = ChannelAccessSet::new();
    grown.add(ChannelAccessFlag::BanAdd);
    assert!(grown.is_set(ChannelAccessFlag::BanAdd));
}

#[test]
fn opers_are_authenticated_by_name_and_password() {
    let p = StandardOperPolicy::new();
    let conf = OperConfig { name: "admin".to_string(), hash: "aZGJuE6EXrjEE".to_string() };
    assert!(p.authenticate(&conf, "admin", "test"));
    assert!(!p.authenticate(&conf, "admin", "wrong"));
    assert!(!p.authenticate(&conf, "root", "test"));
    assert!(p.require_oper(true).is_ok());
    assert!(matches!(p.require_oper(false), Err(PermissionError::User(UserPermissionError::NotOper))));
    assert!(p.can_kill(false).is_err());
    assert!(p.can_set_kline(true, &Pattern::new("*".to_string()), &Pattern::new("*".to_string()), 60).is_ok());
    assert!(p.user_can_oper(false).is_ok());
}

#[test]
fn users_cannot_set_server_modes_or_find_hidden_users() {
    let p = StandardUserPolicy::new();
    assert!(matches!(p.can_set_umode(UserModeFlag::Oper), Err(PermissionError::User(UserPermissionError::ReadOnlyUmode))));
    assert!(p.can_set_umode(UserModeFlag::TlsConnection).is_err());
    assert!(p.can_set_umode(UserModeFlag::Invisible).is_ok());
    assert!(p.can_unset_umode(UserModeFlag::Oper).is_ok());
    let c = |n: u64| ChannelId(ObjectIdParts { server: ServerId(1), epoch: EpochId(1), local: n });
    assert!(p.can_list_user(&vec![c(1)], false, &vec![]).is_ok());
    assert!(p.can_list_user(&vec![c(1), c(2)], true, &vec![c(3), c(2)]).is_ok());
    assert!(matches!(p.can_list_user(&vec![c(1)], true, &vec![c(3)]), Err(PermissionError::User(UserPermissionError::Invisible))));
    assert!(StandardDebuggingPolicy::new().can_list_links().is_ok());
    let all = StandardPolicyService::new();
    assert!(all.user_policy.can_unset_umode(UserModeFlag::Wallops).is_ok());
}

#[test]
fn join_and_send_decisions_follow_the_list_matches() {
    let p = StandardChannelPolicy::new();
    let c = with_modes(channel(), &[ChannelModeFlag::InviteOnly]);
    let none = ListMatches { ban: false, quiet: false, except: false, invex: false };
    let u = user(1, "alice");
    assert_eq!(channel_error(p.join_decision(&u, &c, None, none)), ChannelPermissionError::InviteOnlyChannel);
    let invexed = ListMatches { invex: true, ..none };
    assert!(p.join_decision(&u, &c, None, invexed).is_ok());
    let banned = ListMatches { ban: true, invex: true, ..none };
    assert_eq!(channel_error(p.join_decision(&u, &c, None, banned)), ChannelPermissionError::UserIsBanned);
    let excepted = ListMatches { except: true, ..banned };
    assert!(p.join_decision(&u, &c, None, excepted).is_ok());
    let quiet = ListMatches { quiet: true, ..none };
    assert_eq!(channel_error(p.send_decision(&u, &channel(), quiet)), ChannelPermissionError::CannotSendToChannel);
    assert!(p.send_decision(&u, &channel(), ListMatches { except: true, ..quiet }).is_ok());
    let listed = p.user_list_matches(&user(1, "alice"), &PolicyChannel { bans: pats(&["alice!*@*"]), ..channel() });
    assert_eq!(listed, ListMatches { ban: true, ..none });
}
