//! Formatting mode changes for clients, and small helpers.

use vstd::prelude::*;
use crate::modes::{
    MembershipFlagFlag, ChannelModeChange, ChannelModeSet, MembershipFlagSet, OptionChange, UserModeSet,
    channel_mode_chars, membership_chars, user_mode_chars,
    law_channel_mode_letters, law_membership_letters, law_user_mode_letters,
};
use crate::validated::{ChannelKey, Nickname, Validated};

verus! {

/// Turning a result whose value is itself a result into a single result.
pub trait FlattenResult<T, E> {
    /// The inner result, or the outer error converted to the inner error type.
    fn flatten(self) -> Result<T, E>;
}

impl<T, OuterE, InnerE: From<OuterE>> FlattenResult<T, InnerE> for Result<Result<T, InnerE>, OuterE> {
    fn flatten(self) -> (r: Result<T, InnerE>)
        ensures
            match self {
                Ok(inner) => r == inner,
                Err(e) => r matches Err(x) && call_ensures(InnerE::from, (e,), x),
            },
    {
        match self {
            Ok(inner) => inner,
            Err(e) => Err(InnerE::from(e)),
        }
    }
}

/// `+` and the letters of `added` unless it is empty, then `-` and the
/// letters of `removed` unless it is empty.
pub open spec fn umode_change_text(added: Set<crate::modes::UserModeFlag>, removed: Set<crate::modes::UserModeFlag>) -> Seq<char> {
    (if added == Set::<crate::modes::UserModeFlag>::empty() { Seq::empty() } else { seq!['+'] + user_mode_chars(added) })
        + (if removed == Set::<crate::modes::UserModeFlag>::empty() { Seq::empty() } else { seq!['-'] + user_mode_chars(removed) })
}

/// The text of a user mode change, such as `+iw-o`.
pub fn format_umode_changes(added: &UserModeSet, removed: &UserModeSet) -> (r: String)
    ensures
        r@ == umode_change_text(added@, removed@),
{
    let mut changes = String::new();
    if !added.is_empty() {
        changes.push('+');
        let a = added.to_chars();
        changes.push_str(a.as_str());
    }
    if !removed.is_empty() {
        changes.push('-');
        let b = removed.to_chars();
        changes.push_str(b.as_str());
    }
    proof {
        assert(changes@ =~= umode_change_text(added@, removed@));
    }
    changes
}

/// Whether a channel mode change adds anything: a mode or a key.
pub open spec fn cmode_has_plus(d: ChannelModeChange) -> bool {
    d.added@ != Set::<crate::modes::ChannelModeFlag>::empty() || d.key_change is SetTo
}

/// Whether a channel mode change removes anything: a mode or the key.
pub open spec fn cmode_has_minus(d: ChannelModeChange) -> bool {
    d.removed@ != Set::<crate::modes::ChannelModeFlag>::empty() || d.key_change is Unset
}

/// The text of a channel mode change: `+`, the added letters and `k` when a
/// key is set; then `-`, the removed letters and `k` when the key is removed.
pub open spec fn cmode_change_text(d: ChannelModeChange) -> Seq<char> {
    (if cmode_has_plus(d) {
        seq!['+'] + channel_mode_chars(d.added@) + (if d.key_change is SetTo { seq!['k'] } else { Seq::empty() })
    } else {
        Seq::empty()
    }) + (if cmode_has_minus(d) {
        seq!['-'] + channel_mode_chars(d.removed@) + (if d.key_change is Unset { seq!['k'] } else { Seq::empty() })
    } else {
        Seq::empty()
    })
}

/// The parameters of a channel mode change: the new key when one is set,
/// `*` when the key is removed.
pub open spec fn cmode_change_params(d: ChannelModeChange) -> Seq<Seq<char>> {
    match d.key_change {
        OptionChange::SetTo(k) => seq![k@],
        OptionChange::Unset => seq![seq!['*']],
        OptionChange::NoChange => Seq::empty(),
    }
}

/// The contents of a sequence of strings.
pub open spec fn string_views(s: Seq<String>) -> Seq<Seq<char>> {
    s.map_values(|x: String| x@)
}

/// The parameters of a change to a channel's key.
fn key_params(change: &OptionChange<ChannelKey>) -> (r: Vec<String>)
    ensures
        string_views(r@) == match *change {
            OptionChange::SetTo(k) => seq![k@],
            OptionChange::Unset => seq![seq!['*']],
            OptionChange::NoChange => Seq::<Seq<char>>::empty(),
        },
{
    let mut params: Vec<String> = Vec::new();
    match change {
        OptionChange::SetTo(new_key) => {
            let v = new_key.value().clone();
            params.push(v);
            assert(string_views(params@) =~= seq![new_key@]);
        },
        OptionChange::Unset => {
            let star_lit = "*";
            proof {
                reveal_strlit("*");
                assert(star_lit@ =~= seq!['*']);
            }
            let star = star_lit.to_owned();
            params.push(star);
            assert(string_views(params@) =~= seq![seq!['*']]);
        },
        OptionChange::NoChange => {},
    }
    proof {
        assert(string_views(params@) =~= match *change {
            OptionChange::SetTo(k) => seq![k@],
            OptionChange::Unset => seq![seq!['*']],
            OptionChange::NoChange => Seq::<Seq<char>>::empty(),
        });
    }
    params
}

/// Append to `changes` a sign, the letters of `set`, and `k` if `key` is set.
fn push_mode_part(changes: &mut String, sign: char, set: &ChannelModeSet, key: bool)
    ensures
        final(changes)@ == old(changes)@ + (seq![sign] + channel_mode_chars(set@) + (if key { seq!['k'] } else { Seq::<char>::empty() })),
{
    let ghost start = changes@;
    changes.push(sign);
    let a = set.to_chars();
    changes.push_str(a.as_str());
    if key {
        changes.push(crate::modes::KeyModeType::Key.mode_letter());
    }
    proof {
        assert(changes@ =~= start + (seq![sign] + channel_mode_chars(set@) + (if key { seq!['k'] } else { Seq::<char>::empty() })));
    }
}

/// The text and parameters of a channel mode change, such as `+nk-s` with
/// parameter `secret`.
pub fn format_cmode_changes(detail: &ChannelModeChange) -> (r: (String, Vec<String>))
    ensures
        r.0@ == cmode_change_text(*detail),
        string_views(r.1@) == cmode_change_params(*detail),
{
    let mut changes = String::new();
    let has_plus = !detail.added.is_empty() || detail.key_change.is_set();
    let has_minus = !detail.removed.is_empty() || detail.key_change.is_unset();
    if has_plus {
        push_mode_part(&mut changes, '+', &detail.added, detail.key_change.is_set());
    }
    if has_minus {
        push_mode_part(&mut changes, '-', &detail.removed, detail.key_change.is_unset());
    }
    let params = key_params(&detail.key_change);
    proof {
        assert(changes@ =~= cmode_change_text(*detail));
    }
    (changes, params)
}

/// The text of a change to a member's permissions: `+` and the letters of
/// `added` unless it is empty, then `-` and the letters of `removed` unless
/// it is empty.
pub open spec fn perm_change_text(added: Set<crate::modes::MembershipFlagFlag>, removed: Set<crate::modes::MembershipFlagFlag>) -> Seq<char> {
    (if added == Set::<crate::modes::MembershipFlagFlag>::empty() { Seq::empty() } else { seq!['+'] + membership_chars(added) })
        + (if removed == Set::<crate::modes::MembershipFlagFlag>::empty() { Seq::empty() } else { seq!['-'] + membership_chars(removed) })
}

/// The text of a change to the permissions of the member `nick`, with the
/// nickname as parameter once per letter, such as `+ov-v` with `nick` three times.
pub fn format_channel_perm_changes(nick: &Nickname, added: &MembershipFlagSet, removed: &MembershipFlagSet) -> (r: (String, Vec<String>))
    ensures
        r.0@ == perm_change_text(added@, removed@),
        r.1@.len() == membership_chars(added@).len() + membership_chars(removed@).len(),
        forall|i: int| 0 <= i < r.1@.len() ==> (#[trigger] r.1@[i])@ == nick@,
{
    let mut changes = String::new();
    let mut args: Vec<String> = Vec::new();
    if !added.is_empty() {
        changes.push('+');
        if added.is_set(MembershipFlagFlag::Op) {
            changes.push(MembershipFlagFlag::Op.mode_char());
            args.push(nick.value().clone());
        }
        if added.is_set(MembershipFlagFlag::Voice) {
            changes.push(MembershipFlagFlag::Voice.mode_char());
            args.push(nick.value().clone());
        }
    }
    if !removed.is_empty() {
        changes.push('-');
        if removed.is_set(MembershipFlagFlag::Op) {
            changes.push(MembershipFlagFlag::Op.mode_char());
            args.push(nick.value().clone());
        }
        if removed.is_set(MembershipFlagFlag::Voice) {
            changes.push(MembershipFlagFlag::Voice.mode_char());
            args.push(nick.value().clone());
        }
    }
    proof {
        assert(changes@ =~= perm_change_text(added@, removed@));
    }
    (changes, args)
}

/// The text of a user mode change is `+` and one letter for each added mode,
/// then `-` and one letter for each removed mode, each part left out when
/// its set is empty: a mode's letter occurs in the first part exactly when
/// the mode is added, and in the second exactly when it is removed.
pub proof fn law_umode_change_text(added: Set<crate::modes::UserModeFlag>, removed: Set<crate::modes::UserModeFlag>)
    ensures
        ({
            let t = umode_change_text(added, removed);
            let n: int = if added == Set::<crate::modes::UserModeFlag>::empty() { 0 } else { 1 + user_mode_chars(added).len() as int };
            &&& n <= t.len()
            &&& added != Set::<crate::modes::UserModeFlag>::empty() ==> t[0] == '+'
            &&& forall|f: crate::modes::UserModeFlag| added.contains(f) <==> #[trigger] t.subrange(0, n).contains(f.letter())
            &&& removed != Set::<crate::modes::UserModeFlag>::empty() ==> t[n] == '-'
            &&& forall|f: crate::modes::UserModeFlag| removed.contains(f) <==> #[trigger] t.subrange(n, t.len() as int).contains(f.letter())
            &&& removed == Set::<crate::modes::UserModeFlag>::empty() ==> t.len() == n
        }),
{
    law_user_mode_letters(added);
    law_user_mode_letters(removed);
    let t = umode_change_text(added, removed);
    let n: int = if added == Set::<crate::modes::UserModeFlag>::empty() { 0 } else { 1 + user_mode_chars(added).len() as int };
    let ca = user_mode_chars(added);
    let cr = user_mode_chars(removed);
    if added == Set::<crate::modes::UserModeFlag>::empty() {
        assert(t.subrange(0, n) =~= Seq::<char>::empty());
        assert forall|f: crate::modes::UserModeFlag| !added.contains(f) by {}
    } else {
        assert(t.subrange(0, n) =~= seq!['+'] + ca);
        assert forall|f: crate::modes::UserModeFlag| #[trigger] (seq!['+'] + ca).contains(f.letter()) <==> ca.contains(f.letter()) by {
            vstd::seq_lib::lemma_seq_concat_contains_all_elements(seq!['+'], ca, f.letter());
            assert(seq!['+'][0] == '+');
        }
    }
    if removed == Set::<crate::modes::UserModeFlag>::empty() {
        assert(t.subrange(n, t.len() as int) =~= Seq::<char>::empty());
        assert forall|f: crate::modes::UserModeFlag| !removed.contains(f) by {}
    } else {
        assert(t.subrange(n, t.len() as int) =~= seq!['-'] + cr);
        assert forall|f: crate::modes::UserModeFlag| #[trigger] (seq!['-'] + cr).contains(f.letter()) <==> cr.contains(f.letter()) by {
            vstd::seq_lib::lemma_seq_concat_contains_all_elements(seq!['-'], cr, f.letter());
            assert(seq!['-'][0] == '-');
        }
    }
}

/// The text of a member permission change is `+` and one letter for each
/// added permission, then `-` and one letter for each removed one, each part
/// left out when its set is empty: a permission's letter occurs in the first
/// part exactly when it is added, and in the second exactly when it is removed.
pub proof fn law_perm_change_text(added: Set<crate::modes::MembershipFlagFlag>, removed: Set<crate::modes::MembershipFlagFlag>)
    ensures
        ({
            let t = perm_change_text(added, removed);
            let n: int = if added == Set::<crate::modes::MembershipFlagFlag>::empty() { 0 } else { 1 + membership_chars(added).len() as int };
            &&& n <= t.len()
            &&& added != Set::<crate::modes::MembershipFlagFlag>::empty() ==> t[0] == '+'
            &&& forall|f: crate::modes::MembershipFlagFlag| added.contains(f) <==> #[trigger] t.subrange(0, n).contains(f.letter())
            &&& removed != Set::<crate::modes::MembershipFlagFlag>::empty() ==> t[n] == '-'
            &&& forall|f: crate::modes::MembershipFlagFlag| removed.contains(f) <==> #[trigger] t.subrange(n, t.len() as int).contains(f.letter())
            &&& removed == Set::<crate::modes::MembershipFlagFlag>::empty() ==> t.len() == n
        }),
{
    law_membership_letters(added);
    law_membership_letters(removed);
    let t = perm_change_text(added, removed);
    let n: int = if added == Set::<crate::modes::MembershipFlagFlag>::empty() { 0 } else { 1 + membership_chars(added).len() as int };
    let ca = membership_chars(added);
    let cr = membership_chars(removed);
    if added == Set::<crate::modes::MembershipFlagFlag>::empty() {
        assert(t.subrange(0, n) =~= Seq::<char>::empty());
        assert forall|f: crate::modes::MembershipFlagFlag| !added.contains(f) by {}
    } else {
        assert(t.subrange(0, n) =~= seq!['+'] + ca);
        assert forall|f: crate::modes::MembershipFlagFlag| #[trigger] (seq!['+'] + ca).contains(f.letter()) <==> ca.contains(f.letter()) by {
            vstd::seq_lib::lemma_seq_concat_contains_all_elements(seq!['+'], ca, f.letter());
            assert(seq!['+'][0] == '+');
        }
    }
    if removed == Set::<crate::modes::MembershipFlagFlag>::empty() {
        assert(t.subrange(n, t.len() as int) =~= Seq::<char>::empty());
        assert forall|f: crate::modes::MembershipFlagFlag| !removed.contains(f) by {}
    } else {
        assert(t.subrange(n, t.len() as int) =~= seq!['-'] + cr);
        assert forall|f: crate::modes::MembershipFlagFlag| #[trigger] (seq!['-'] + cr).contains(f.letter()) <==> cr.contains(f.letter()) by {
            vstd::seq_lib::lemma_seq_concat_contains_all_elements(seq!['-'], cr, f.letter());
            assert(seq!['-'][0] == '-');
        }
    }
}

/// The length of the part of a channel mode change's text that adds.
pub open spec fn cmode_plus_len(d: ChannelModeChange) -> int {
    if cmode_has_plus(d) {
        1 + channel_mode_chars(d.added@).len() + (if d.key_change is SetTo { 1int } else { 0int })
    } else {
        0
    }
}

/// The letter `k` when `key` holds, and nothing otherwise.
pub open spec fn key_letter(key: bool) -> Seq<char> {
    if key { seq!['k'] } else { Seq::<char>::empty() }
}

/// One part of a channel mode change's text: the sign, the letters of the
/// modes, and `k` for a key change.
proof fn lemma_cmode_part(sign: char, s: Set<crate::modes::ChannelModeFlag>, key: bool)
    requires
        sign == '+' || sign == '-',
    ensures
        (seq![sign] + channel_mode_chars(s) + key_letter(key))[0] == sign,
        (seq![sign] + channel_mode_chars(s) + key_letter(key)).len()
            == 1 + channel_mode_chars(s).len() + (if key { 1int } else { 0int }),
        forall|f: crate::modes::ChannelModeFlag| s.contains(f)
            <==> #[trigger] (seq![sign] + channel_mode_chars(s) + key_letter(key)).contains(f.letter()),
        (seq![sign] + channel_mode_chars(s) + key_letter(key)).contains('k') <==> key,
{
    law_channel_mode_letters(s);
    let c = channel_mode_chars(s);
    let k = key_letter(key);
    let p = seq![sign] + c + k;
    assert(!c.contains('k')) by {
        if c.contains('k') {
            let f = choose|f: crate::modes::ChannelModeFlag| s.contains(f) && #[trigger] f.letter() == 'k';
        }
    }
    assert(!c.contains(sign)) by {
        if c.contains(sign) {
            let f = choose|f: crate::modes::ChannelModeFlag| s.contains(f) && #[trigger] f.letter() == sign;
        }
    }
    assert forall|x: char| #[trigger] p.contains(x) <==> (x == sign || c.contains(x) || (key && x == 'k')) by {
        vstd::seq_lib::lemma_seq_concat_contains_all_elements(seq![sign] + c, k, x);
        vstd::seq_lib::lemma_seq_concat_contains_all_elements(seq![sign], c, x);
        assert(seq![sign][0] == sign);
        if key {
            assert(k[0] == 'k');
        }
    }
    assert forall|f: crate::modes::ChannelModeFlag| s.contains(f) <==> #[trigger] p.contains(f.letter()) by {
        assert(p.contains(f.letter()) <==> (f.letter() == sign || c.contains(f.letter()) || (key && f.letter() == 'k')));
    }
    assert(p.contains('k') <==> ('k' == sign || c.contains('k') || key));
}

/// The text of a channel mode change is `+`, one letter for each added
/// mode and `k` when a key is set, then `-`, one letter for each removed
/// mode and `k` when the key is removed, each part left out when it would
/// name nothing: a mode's letter occurs in the first part exactly when the
/// mode is added and in the second exactly when it is removed, and `k` marks
/// the key change in the part it belongs to.
pub proof fn law_cmode_change_text(d: ChannelModeChange)
    ensures
        cmode_plus_len(d) <= cmode_change_text(d).len(),
        cmode_has_plus(d) ==> cmode_change_text(d)[0] == '+',
        forall|f: crate::modes::ChannelModeFlag| d.added@.contains(f)
            <==> #[trigger] cmode_change_text(d).subrange(0, cmode_plus_len(d)).contains(f.letter()),
        cmode_change_text(d).subrange(0, cmode_plus_len(d)).contains('k') <==> d.key_change is SetTo,
        cmode_has_minus(d) ==> cmode_change_text(d)[cmode_plus_len(d)] == '-',
        forall|f: crate::modes::ChannelModeFlag| d.removed@.contains(f)
            <==> #[trigger] cmode_change_text(d).subrange(cmode_plus_len(d), cmode_change_text(d).len() as int).contains(f.letter()),
        cmode_change_text(d).subrange(cmode_plus_len(d), cmode_change_text(d).len() as int).contains('k')
            <==> d.key_change is Unset,
        !cmode_has_minus(d) ==> cmode_change_text(d).len() == cmode_plus_len(d),
{
    let t = cmode_change_text(d);
    let n = cmode_plus_len(d);
    let plus = seq!['+'] + channel_mode_chars(d.added@) + key_letter(d.key_change is SetTo);
    let minus = seq!['-'] + channel_mode_chars(d.removed@) + key_letter(d.key_change is Unset);
    lemma_cmode_part('+', d.added@, d.key_change is SetTo);
    lemma_cmode_part('-', d.removed@, d.key_change is Unset);
    let first = if cmode_has_plus(d) { plus } else { Seq::<char>::empty() };
    let second = if cmode_has_minus(d) { minus } else { Seq::<char>::empty() };
    assert(t =~= first + second);
    assert(first.len() == n);
    assert(t.subrange(0, n) =~= first);
    assert(t.subrange(n, t.len() as int) =~= second);
    if !cmode_has_plus(d) {
        assert(d.added@ =~= Set::<crate::modes::ChannelModeFlag>::empty());
    }
    if !cmode_has_minus(d) {
        assert(d.removed@ =~= Set::<crate::modes::ChannelModeFlag>::empty());
    }
}

} // verus!
