use sable_network::modes::{
    ChannelModeChange, ChannelModeFlag, ChannelModeSet, MembershipFlagFlag, MembershipFlagSet, OptionChange,
    UserModeFlag, UserModeSet,
};
use sable_network::types::{NicknameMatcher, Pattern};
use sable_network::utils::{format_channel_perm_changes, format_cmode_changes, format_umode_changes, FlattenResult};
use sable_network::validated::{
    check_allowed_chars, AwayReason, ChannelKey, ChannelName, CustomRoleName, Hostname, Nickname, Realname, ServerName,
    Username, Validated, DIGIT, LOWER,
};

#[test]
fn nicknames_follow_the_rules() {
    assert!(Nickname::convert("alice").is_ok());
    assert!(Nickname::convert("[b]{o}b^`|_-9").is_ok());
    assert!(Nickname::convert("9lives").is_err());
    assert!(Nickname::convert("-dash").is_err());
    assert!(Nickname::convert("with space").is_err());
    assert!(Nickname::convert("").is_err());
    assert!(Nickname::convert("abcdefghijklmno").is_ok());
    assert!(Nickname::convert("abcdefghijklmnop").is_err());
    let e = Nickname::convert("bad!").unwrap_err();
    assert_eq!(e.0, "bad!");
    assert_eq!(Nickname::new("ok".to_string()).unwrap().value(), "ok");
    assert!(Nickname::validate(&"x".to_string()).is_ok());
}

#[test]
fn collision_nicknames_skip_the_character_rules() {
    let n = Nickname::new_for_collision("001ABC".to_string()).unwrap();
    assert_eq!(n.value(), "001ABC");
}

#[test]
fn channel_names_start_with_hash_or_ampersand() {
    assert!(ChannelName::convert("#chat").is_ok());
    assert!(ChannelName::convert("&local").is_ok());
    assert!(ChannelName::convert("chat").is_err());
    assert!(ChannelName::convert("").is_err());
}

#[test]
fn server_names_follow_the_rules() {
    assert!(ServerName::convert("irc.example.net").is_ok());
    assert!(ServerName::convert("my_server-1").is_ok());
    assert!(ServerName::convert("1irc").is_err());
    assert!(ServerName::convert("-irc").is_err());
    assert!(ServerName::convert("irc!").is_err());
    assert!(ServerName::convert("").is_err());
}

#[test]
fn lengths_are_counted_in_bytes() {
    assert!(Username::convert("abcdefghij").is_ok());
    assert!(Username::convert("abcdefghijk").is_err());
    assert!(Username::convert("ééééé").is_ok());
    assert!(Username::convert("éééééé").is_err());
    assert!(AwayReason::convert("").is_err());
    assert!(AwayReason::convert("gone").is_ok());
    assert!(Realname::convert("").is_err());
    assert!(Hostname::convert("").is_ok());
    assert!(CustomRoleName::convert("").is_ok());
    assert!(CustomRoleName::convert("helper-2_x").is_ok());
    assert!(CustomRoleName::convert("no.dots").is_err());
}

#[test]
fn channel_keys_are_printable_ascii_without_separators() {
    assert!(ChannelKey::convert("s3cr3t!").is_ok());
    assert!(ChannelKey::convert("with space").is_err());
    assert!(ChannelKey::convert("a:b").is_err());
    assert!(ChannelKey::convert("a,b").is_err());
    assert!(ChannelKey::convert("").is_err());
    assert!(ChannelKey::convert("é").is_err());
}

#[test]
fn user_and_real_names_are_coerced() {
    assert_eq!(Username::new_coerce("[abc").unwrap().value(), "abc");
    assert_eq!(Username::new_coerce("abcdefghijklmnop").unwrap().value(), "abcdefghij");
    assert_eq!(Username::new_coerce("abcdefghié").unwrap().value(), "abcdefghi");
    assert!(Username::new_coerce("[[[").is_err());
    assert_eq!(Realname::new_coerce("Real [Name]").unwrap().value(), "Real Name]");
    assert!(Realname::new_coerce("").is_err());
}

#[test]
fn channel_keys_are_coerced() {
    assert_eq!(ChannelKey::new_coerce("a b:c,d\u{1}é~").unwrap().value(), "abcd~");
    let long = "k".repeat(80);
    assert_eq!(ChannelKey::new_coerce(&long).unwrap().value().len(), 64);
    assert!(ChannelKey::new_coerce(" :,").is_err());
}

#[test]
fn allowed_characters_are_checked() {
    assert!(check_allowed_chars("abc123", &[LOWER, DIGIT]).is_ok());
    assert!(check_allowed_chars("abc-123", &[LOWER, DIGIT]).is_err());
    assert!(check_allowed_chars("", &[]).is_ok());
    assert_eq!(check_allowed_chars("x", &[]).unwrap_err().0, "x");
}

fn umodes(flags: &[UserModeFlag]) -> UserModeSet {
    let mut s = UserModeSet::new();
    for f in flags {
        s.set(*f, true);
    }
    s
}

#[test]
fn mode_sets_list_their_letters_in_order() {
    let s = umodes(&[UserModeFlag::Wallops, UserModeFlag::Invisible]);
    assert_eq!(s.to_chars(), "iw");
    assert!(s.has_mode(UserModeFlag::Invisible));
    assert!(!s.has_mode(UserModeFlag::Oper));
    assert!(UserModeSet::new().is_empty());
    assert_eq!(UserModeFlag::TlsConnection.mode_char(), 'Z');
    let mut c = ChannelModeSet::new();
    c.set(ChannelModeFlag::TopicLock, true);
    c.set(ChannelModeFlag::NoExternal, true);
    assert_eq!(c.to_chars(), "nt");
    c.set(ChannelModeFlag::NoExternal, false);
    assert_eq!(c.to_chars(), "t");
}

#[test]
fn umode_changes_are_formatted() {
    let added = umodes(&[UserModeFlag::Invisible, UserModeFlag::Wallops]);
    let removed = umodes(&[UserModeFlag::Oper]);
    assert_eq!(format_umode_changes(&added, &removed), "+iw-o");
    assert_eq!(format_umode_changes(&UserModeSet::new(), &removed), "-o");
    assert_eq!(format_umode_changes(&UserModeSet::new(), &UserModeSet::new()), "");
}

#[test]
fn cmode_changes_are_formatted() {
    let mut added = ChannelModeSet::new();
    added.set(ChannelModeFlag::NoExternal, true);
    let mut removed = ChannelModeSet::new();
    removed.set(ChannelModeFlag::Secret, true);
    let change = ChannelModeChange { added, removed, key_change: OptionChange::SetTo(ChannelKey::convert("pw").unwrap()) };
    assert_eq!(format_cmode_changes(&change), ("+nk-s".to_string(), vec!["pw".to_string()]));
    let unset = ChannelModeChange { added: ChannelModeSet::new(), removed: ChannelModeSet::new(), key_change: OptionChange::Unset };
    assert_eq!(format_cmode_changes(&unset), ("-k".to_string(), vec!["*".to_string()]));
    let none = ChannelModeChange { added: ChannelModeSet::new(), removed: ChannelModeSet::new(), key_change: OptionChange::NoChange };
    assert_eq!(format_cmode_changes(&none), (String::new(), Vec::new()));
}

#[test]
fn permission_changes_are_formatted() {
    let nick = Nickname::convert("bob").unwrap();
    let mut added = MembershipFlagSet::new();
    added.set(MembershipFlagFlag::Op, true);
    added.set(MembershipFlagFlag::Voice, true);
    let mut removed = MembershipFlagSet::new();
    removed.set(MembershipFlagFlag::Voice, true);
    let (text, args) = format_channel_perm_changes(&nick, &added, &removed);
    assert_eq!(text, "+ov-v");
    assert_eq!(args, vec!["bob".to_string(), "bob".to_string(), "bob".to_string()]);
}

#[test]
fn patterns_match_without_regard_to_case() {
    let p = Pattern::new("*!*@*.Example.COM".to_string());
    assert!(p.matches("nick!user@host.example.com"));
    assert!(!p.matches("nick!user@example.org"));
    let q = Pattern::new("ab?d".to_string());
    assert!(q.matches("ABcD"));
    assert!(!q.matches("abd"));
    let m = NicknameMatcher::new(Pattern::new("guest*".to_string()));
    assert!(m.matches(&Nickname::convert("Guest42").unwrap()));
    assert!(!m.matches(&Nickname::convert("alice").unwrap()));
}

#[test]
fn nested_results_are_flattened() {
    let ok: Result<Result<u8, String>, String> = Ok(Ok(3));
    assert_eq!(FlattenResult::flatten(ok), Ok(3));
    let inner: Result<Result<u8, String>, String> = Ok(Err("inner".to_string()));
    assert_eq!(FlattenResult::flatten(inner), Err("inner".to_string()));
    let outer: Result<Result<u8, String>, String> = Err("outer".to_string());
    assert_eq!(FlattenResult::flatten(outer), Err("outer".to_string()));
}

#[test]
fn valid_values_survive_coercion() {
    assert_eq!(ChannelKey::new_coerce("s3cr3t~!").unwrap().value(), "s3cr3t~!");
    assert_eq!(Username::new_coerce("alice").unwrap().value(), "alice");
    let key = ChannelKey::convert("pw").unwrap();
    assert_eq!(ChannelKey::new_coerce(key.value()).unwrap().value(), key.value());
}
