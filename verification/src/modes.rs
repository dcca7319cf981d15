//! User modes, channel modes and channel member permissions, and sets of them.

use vstd::prelude::*;
use crate::validated::ChannelKey;

verus! {

/// A user mode.
#[derive(Clone, Copy, Debug, PartialEq, Eq, Structural)]
pub enum UserModeFlag {
    Invisible,
    Oper,
    Wallops,
    TlsConnection,
}

impl UserModeFlag {
    /// The mode letter of this flag.
    pub open spec fn letter(self) -> char {
        match self {
            UserModeFlag::Invisible => 'i',
            UserModeFlag::Oper => 'o',
            UserModeFlag::Wallops => 'w',
            UserModeFlag::TlsConnection => 'Z',
        }
    }

    /// The mode letter of this flag.
    pub fn mode_char(&self) -> (r: char)
        ensures
            r == self.letter(),
    {
        match self {
            UserModeFlag::Invisible => 'i',
            UserModeFlag::Oper => 'o',
            UserModeFlag::Wallops => 'w',
            UserModeFlag::TlsConnection => 'Z',
        }
    }
}

/// A set of user modes.
#[derive(Clone, Copy, Debug, PartialEq, Eq, Structural)]
pub struct UserModeSet {
    invisible: bool,
    oper: bool,
    wallops: bool,
    tls_connection: bool,
}

impl View for UserModeSet {
    type V = Set<UserModeFlag>;

    closed spec fn view(&self) -> Set<UserModeFlag> {
        Set::new(|f: UserModeFlag| self.flag_value(f))
    }
}

/// The letters of the flags in `s`, in the order in which the flags are declared.
pub open spec fn user_mode_chars(s: Set<UserModeFlag>) -> Seq<char> {
    (if s.contains(UserModeFlag::Invisible) { seq!['i'] } else { Seq::empty() }) + (if s.contains(UserModeFlag::Oper) { seq!['o'] } else { Seq::empty() }) + (if s.contains(UserModeFlag::Wallops) { seq!['w'] } else { Seq::empty() }) + (if s.contains(UserModeFlag::TlsConnection) { seq!['Z'] } else { Seq::empty() })
}

impl UserModeSet {
    spec fn flag_value(self, f: UserModeFlag) -> bool {
        match f {
            UserModeFlag::Invisible => self.invisible,
            UserModeFlag::Oper => self.oper,
            UserModeFlag::Wallops => self.wallops,
            UserModeFlag::TlsConnection => self.tls_connection,
        }
    }

    /// Every flag, in the order in which they are declared.
    pub open spec fn all_flags() -> Seq<UserModeFlag> {
        seq![UserModeFlag::Invisible, UserModeFlag::Oper, UserModeFlag::Wallops, UserModeFlag::TlsConnection]
    }

    /// The empty set.
    pub fn new() -> (r: UserModeSet)
        ensures
            r@ == Set::<UserModeFlag>::empty(),
    {
        let r = UserModeSet { invisible: false, oper: false, wallops: false, tls_connection: false };
        assert(r@ =~= Set::<UserModeFlag>::empty());
        r
    }

    /// Whether `flag` is in the set.
    pub fn has_mode(&self, flag: UserModeFlag) -> (r: bool)
        ensures
            r == self@.contains(flag),
    {
        match flag {
            UserModeFlag::Invisible => self.invisible,
            UserModeFlag::Oper => self.oper,
            UserModeFlag::Wallops => self.wallops,
            UserModeFlag::TlsConnection => self.tls_connection,
        }
    }

    /// Whether `flag` is in the set.
    pub fn is_set(&self, flag: UserModeFlag) -> (r: bool)
        ensures
            r == self@.contains(flag),
    {
        self.has_mode(flag)
    }

    /// Add or remove `flag`.
    pub fn set(&mut self, flag: UserModeFlag, value: bool)
        ensures
            final(self)@ == if value { old(self)@.insert(flag) } else { old(self)@.remove(flag) },
    {
        match flag {
            UserModeFlag::Invisible => self.invisible = value,
            UserModeFlag::Oper => self.oper = value,
            UserModeFlag::Wallops => self.wallops = value,
            UserModeFlag::TlsConnection => self.tls_connection = value,
        }
        proof {
            assert(self@ =~= if value { old(self)@.insert(flag) } else { old(self)@.remove(flag) });
        }
    }

    /// Whether the set is empty.
    pub fn is_empty(&self) -> (r: bool)
        ensures
            r == (self@ == Set::<UserModeFlag>::empty()),
    {
        let r = !self.invisible && !self.oper && !self.wallops && !self.tls_connection;
        proof {
            if r {
                assert(self@ =~= Set::<UserModeFlag>::empty());
            } else {
                if self.invisible {
                    assert(self@.contains(UserModeFlag::Invisible));
                }
                if self.oper {
                    assert(self@.contains(UserModeFlag::Oper));
                }
                if self.wallops {
                    assert(self@.contains(UserModeFlag::Wallops));
                }
                if self.tls_connection {
                    assert(self@.contains(UserModeFlag::TlsConnection));
                }
            }
        }
        r
    }

    /// The letters of the flags in the set, in the order in which the flags are declared.
    pub fn to_chars(&self) -> (r: String)
        ensures
            r@ == user_mode_chars(self@),
    {
        let mut r = String::new();
        if self.invisible {
            r.push('i');
        }
        if self.oper {
            r.push('o');
        }
        if self.wallops {
            r.push('w');
        }
        if self.tls_connection {
            r.push('Z');
        }
        proof {
            assert(r@ =~= user_mode_chars(self@));
        }
        r
    }
}

/// A simple channel mode, one that takes no parameter.
#[derive(Clone, Copy, Debug, PartialEq, Eq, Structural)]
pub enum ChannelModeFlag {
    InviteOnly,
    NoExternal,
    Secret,
    TopicLock,
    Moderated,
    NoColour,
}

impl ChannelModeFlag {
    /// The mode letter of this flag.
    pub open spec fn letter(self) -> char {
        match self {
            ChannelModeFlag::InviteOnly => 'i',
            ChannelModeFlag::NoExternal => 'n',
            ChannelModeFlag::Secret => 's',
            ChannelModeFlag::TopicLock => 't',
            ChannelModeFlag::Moderated => 'm',
            ChannelModeFlag::NoColour => 'c',
        }
    }

    /// The mode letter of this flag.
    pub fn mode_char(&self) -> (r: char)
        ensures
            r == self.letter(),
    {
        match self {
            ChannelModeFlag::InviteOnly => 'i',
            ChannelModeFlag::NoExternal => 'n',
            ChannelModeFlag::Secret => 's',
            ChannelModeFlag::TopicLock => 't',
            ChannelModeFlag::Moderated => 'm',
            ChannelModeFlag::NoColour => 'c',
        }
    }
}

/// A set of simple channel modes.
#[derive(Clone, Copy, Debug, PartialEq, Eq, Structural)]
pub struct ChannelModeSet {
    invite_only: bool,
    no_external: bool,
    secret: bool,
    topic_lock: bool,
    moderated: bool,
    no_colour: bool,
}

impl View for ChannelModeSet {
    type V = Set<ChannelModeFlag>;

    closed spec fn view(&self) -> Set<ChannelModeFlag> {
        Set::new(|f: ChannelModeFlag| self.flag_value(f))
    }
}

/// The letters of the flags in `s`, in the order in which the flags are declared.
pub open spec fn channel_mode_chars(s: Set<ChannelModeFlag>) -> Seq<char> {
    (if s.contains(ChannelModeFlag::InviteOnly) { seq!['i'] } else { Seq::empty() }) + (if s.contains(ChannelModeFlag::NoExternal) { seq!['n'] } else { Seq::empty() }) + (if s.contains(ChannelModeFlag::Secret) { seq!['s'] } else { Seq::empty() }) + (if s.contains(ChannelModeFlag::TopicLock) { seq!['t'] } else { Seq::empty() }) + (if s.contains(ChannelModeFlag::Moderated) { seq!['m'] } else { Seq::empty() }) + (if s.contains(ChannelModeFlag::NoColour) { seq!['c'] } else { Seq::empty() })
}

impl ChannelModeSet {
    spec fn flag_value(self, f: ChannelModeFlag) -> bool {
        match f {
            ChannelModeFlag::InviteOnly => self.invite_only,
            ChannelModeFlag::NoExternal => self.no_external,
            ChannelModeFlag::Secret => self.secret,
            ChannelModeFlag::TopicLock => self.topic_lock,
            ChannelModeFlag::Moderated => self.moderated,
            ChannelModeFlag::NoColour => self.no_colour,
        }
    }

    /// Every flag, in the order in which they are declared.
    pub open spec fn all_flags() -> Seq<ChannelModeFlag> {
        seq![ChannelModeFlag::InviteOnly, ChannelModeFlag::NoExternal, ChannelModeFlag::Secret, ChannelModeFlag::TopicLock, ChannelModeFlag::Moderated, ChannelModeFlag::NoColour]
    }

    /// The empty set.
    pub fn new() -> (r: ChannelModeSet)
        ensures
            r@ == Set::<ChannelModeFlag>::empty(),
    {
        let r = ChannelModeSet { invite_only: false, no_external: false, secret: false, topic_lock: false, moderated: false, no_colour: false };
        assert(r@ =~= Set::<ChannelModeFlag>::empty());
        r
    }

    /// Whether `flag` is in the set.
    pub fn has_mode(&self, flag: ChannelModeFlag) -> (r: bool)
        ensures
            r == self@.contains(flag),
    {
        match flag {
            ChannelModeFlag::InviteOnly => self.invite_only,
            ChannelModeFlag::NoExternal => self.no_external,
            ChannelModeFlag::Secret => self.secret,
            ChannelModeFlag::TopicLock => self.topic_lock,
            ChannelModeFlag::Moderated => self.moderated,
            ChannelModeFlag::NoColour => self.no_colour,
        }
    }

    /// Whether `flag` is in the set.
    pub fn is_set(&self, flag: ChannelModeFlag) -> (r: bool)
        ensures
            r == self@.contains(flag),
    {
        self.has_mode(flag)
    }

    /// Add or remove `flag`.
    pub fn set(&mut self, flag: ChannelModeFlag, value: bool)
        ensures
            final(self)@ == if value { old(self)@.insert(flag) } else { old(self)@.remove(flag) },
    {
        match flag {
            ChannelModeFlag::InviteOnly => self.invite_only = value,
            ChannelModeFlag::NoExternal => self.no_external = value,
            ChannelModeFlag::Secret => self.secret = value,
            ChannelModeFlag::TopicLock => self.topic_lock = value,
            ChannelModeFlag::Moderated => self.moderated = value,
            ChannelModeFlag::NoColour => self.no_colour = value,
        }
        proof {
            assert(self@ =~= if value { old(self)@.insert(flag) } else { old(self)@.remove(flag) });
        }
    }

    /// Whether the set is empty.
    pub fn is_empty(&self) -> (r: bool)
        ensures
            r == (self@ == Set::<ChannelModeFlag>::empty()),
    {
        let r = !self.invite_only && !self.no_external && !self.secret && !self.topic_lock && !self.moderated && !self.no_colour;
        proof {
            if r {
                assert(self@ =~= Set::<ChannelModeFlag>::empty());
            } else {
                if self.invite_only {
                    assert(self@.contains(ChannelModeFlag::InviteOnly));
                }
                if self.no_external {
                    assert(self@.contains(ChannelModeFlag::NoExternal));
                }
                if self.secret {
                    assert(self@.contains(ChannelModeFlag::Secret));
                }
                if self.topic_lock {
                    assert(self@.contains(ChannelModeFlag::TopicLock));
                }
                if self.moderated {
                    assert(self@.contains(ChannelModeFlag::Moderated));
                }
                if self.no_colour {
                    assert(self@.contains(ChannelModeFlag::NoColour));
                }
            }
        }
        r
    }

    /// The letters of the flags in the set, in the order in which the flags are declared.
    pub fn to_chars(&self) -> (r: String)
        ensures
            r@ == channel_mode_chars(self@),
    {
        let mut r = String::new();
        if self.invite_only {
            r.push('i');
        }
        if self.no_external {
            r.push('n');
        }
        if self.secret {
            r.push('s');
        }
        if self.topic_lock {
            r.push('t');
        }
        if self.moderated {
            r.push('m');
        }
        if self.no_colour {
            r.push('c');
        }
        proof {
            assert(r@ =~= channel_mode_chars(self@));
        }
        r
    }
}

/// A permission a channel member can hold.
#[derive(Clone, Copy, Debug, PartialEq, Eq, Structural)]
pub enum MembershipFlagFlag {
    Op,
    Voice,
}

impl MembershipFlagFlag {
    /// The mode letter of this flag.
    pub open spec fn letter(self) -> char {
        match self {
            MembershipFlagFlag::Op => 'o',
            MembershipFlagFlag::Voice => 'v',
        }
    }

    /// The mode letter of this flag.
    pub fn mode_char(&self) -> (r: char)
        ensures
            r == self.letter(),
    {
        match self {
            MembershipFlagFlag::Op => 'o',
            MembershipFlagFlag::Voice => 'v',
        }
    }
}

/// A set of channel member permissions.
#[derive(Clone, Copy, Debug, PartialEq, Eq, Structural)]
pub struct MembershipFlagSet {
    op: bool,
    voice: bool,
}

impl View for MembershipFlagSet {
    type V = Set<MembershipFlagFlag>;

    closed spec fn view(&self) -> Set<MembershipFlagFlag> {
        Set::new(|f: MembershipFlagFlag| self.flag_value(f))
    }
}

/// The letters of the flags in `s`, in the order in which the flags are declared.
pub open spec fn membership_chars(s: Set<MembershipFlagFlag>) -> Seq<char> {
    (if s.contains(MembershipFlagFlag::Op) { seq!['o'] } else { Seq::empty() }) + (if s.contains(MembershipFlagFlag::Voice) { seq!['v'] } else { Seq::empty() })
}

impl MembershipFlagSet {
    spec fn flag_value(self, f: MembershipFlagFlag) -> bool {
        match f {
            MembershipFlagFlag::Op => self.op,
            MembershipFlagFlag::Voice => self.voice,
        }
    }

    /// Every flag, in the order in which they are declared.
    pub open spec fn all_flags() -> Seq<MembershipFlagFlag> {
        seq![MembershipFlagFlag::Op, MembershipFlagFlag::Voice]
    }

    /// The empty set.
    pub fn new() -> (r: MembershipFlagSet)
        ensures
            r@ == Set::<MembershipFlagFlag>::empty(),
    {
        let r = MembershipFlagSet { op: false, voice: false };
        assert(r@ =~= Set::<MembershipFlagFlag>::empty());
        r
    }

    /// Whether `flag` is in the set.
    pub fn has_mode(&self, flag: MembershipFlagFlag) -> (r: bool)
        ensures
            r == self@.contains(flag),
    {
        match flag {
            MembershipFlagFlag::Op => self.op,
            MembershipFlagFlag::Voice => self.voice,
        }
    }

    /// Whether `flag` is in the set.
    pub fn is_set(&self, flag: MembershipFlagFlag) -> (r: bool)
        ensures
            r == self@.contains(flag),
    {
        self.has_mode(flag)
    }

    /// Add or remove `flag`.
    pub fn set(&mut self, flag: MembershipFlagFlag, value: bool)
        ensures
            final(self)@ == if value { old(self)@.insert(flag) } else { old(self)@.remove(flag) },
    {
        match flag {
            MembershipFlagFlag::Op => self.op = value,
            MembershipFlagFlag::Voice => self.voice = value,
        }
        proof {
            assert(self@ =~= if value { old(self)@.insert(flag) } else { old(self)@.remove(flag) });
        }
    }

    /// Whether the set is empty.
    pub fn is_empty(&self) -> (r: bool)
        ensures
            r == (self@ == Set::<MembershipFlagFlag>::empty()),
    {
        let r = !self.op && !self.voice;
        proof {
            if r {
                assert(self@ =~= Set::<MembershipFlagFlag>::empty());
            } else {
                if self.op {
                    assert(self@.contains(MembershipFlagFlag::Op));
                }
                if self.voice {
                    assert(self@.contains(MembershipFlagFlag::Voice));
                }
            }
        }
        r
    }

    /// The letters of the flags in the set, in the order in which the flags are declared.
    pub fn to_chars(&self) -> (r: String)
        ensures
            r@ == membership_chars(self@),
    {
        let mut r = String::new();
        if self.op {
            r.push('o');
        }
        if self.voice {
            r.push('v');
        }
        proof {
            assert(r@ =~= membership_chars(self@));
        }
        r
    }
}

/// The letter `c` alone when `p` holds, and nothing otherwise.
pub open spec fn letter_if(p: bool, c: char) -> Seq<char> {
    if p { seq![c] } else { Seq::<char>::empty() }
}

/// Appending the letter `c` when `p` holds to letters that do not hold `c`
/// keeps every letter once, and adds `c` exactly when `p` holds.
proof fn lemma_add_letter(a: Seq<char>, p: bool, c: char)
    requires
        a.no_duplicates(),
        !a.contains(c),
    ensures
        (a + letter_if(p, c)).no_duplicates(),
        forall|x: char| #[trigger] (a + letter_if(p, c)).contains(x)
            <==> (a.contains(x) || (p && x == c)),
{
    let b = letter_if(p, c);
    assert forall|i: int, j: int| 0 <= i < a.len() && 0 <= j < b.len() implies a[i] != b[j] by {
        if a[i] == b[j] {
            assert(a.contains(c));
        }
    }
    vstd::seq_lib::lemma_no_dup_in_concat(a, b);
    assert forall|x: char| #[trigger] (a + b).contains(x) <==> (a.contains(x) || (p && x == c)) by {
        vstd::seq_lib::lemma_seq_concat_contains_all_elements(a, b, x);
        if p {
            assert(b[0] == c);
        }
    }
}

/// The letters of a set of user modes name each mode of the set once and
/// nothing else: a flag's letter occurs exactly when the flag is in the set,
/// no letter twice, and distinct flags have distinct letters, so there are as
/// many letters as flags.
pub proof fn law_user_mode_letters(s: Set<UserModeFlag>)
    ensures
        forall|f: UserModeFlag| user_mode_chars(s).contains(#[trigger] f.letter()) <==> s.contains(f),
        forall|c: char| user_mode_chars(s).contains(c) ==> exists|f: UserModeFlag| s.contains(f) && #[trigger] f.letter() == c,
        user_mode_chars(s).no_duplicates(),
        user_mode_chars(s).to_set().len() == user_mode_chars(s).len(),
        user_mode_chars(s).to_set() == s.map(|f: UserModeFlag| f.letter()),
        forall|f: UserModeFlag, g: UserModeFlag| f != g ==> #[trigger] f.letter() != #[trigger] g.letter(),
{
    let a0 = Seq::<char>::empty();
    lemma_add_letter(a0, s.contains(UserModeFlag::Invisible), 'i');
    assert(a0 + letter_if(s.contains(UserModeFlag::Invisible), 'i') =~= letter_if(s.contains(UserModeFlag::Invisible), 'i'));
    let a1 = letter_if(s.contains(UserModeFlag::Invisible), 'i');
    lemma_add_letter(a1, s.contains(UserModeFlag::Oper), 'o');
    let a2 = a1 + letter_if(s.contains(UserModeFlag::Oper), 'o');
    lemma_add_letter(a2, s.contains(UserModeFlag::Wallops), 'w');
    let a3 = a2 + letter_if(s.contains(UserModeFlag::Wallops), 'w');
    lemma_add_letter(a3, s.contains(UserModeFlag::TlsConnection), 'Z');
    let whole = a3 + letter_if(s.contains(UserModeFlag::TlsConnection), 'Z');
    assert(whole =~= user_mode_chars(s));
    assert forall|x: char| user_mode_chars(s).contains(x) <==> ((s.contains(UserModeFlag::Invisible) && x == 'i') || (s.contains(UserModeFlag::Oper) && x == 'o') || (s.contains(UserModeFlag::Wallops) && x == 'w') || (s.contains(UserModeFlag::TlsConnection) && x == 'Z')) by {}
    assert forall|c: char| user_mode_chars(s).contains(c) implies exists|f: UserModeFlag| s.contains(f) && #[trigger] f.letter() == c by {
        if s.contains(UserModeFlag::Invisible) && c == 'i' { assert(UserModeFlag::Invisible.letter() == c); }
        if s.contains(UserModeFlag::Oper) && c == 'o' { assert(UserModeFlag::Oper.letter() == c); }
        if s.contains(UserModeFlag::Wallops) && c == 'w' { assert(UserModeFlag::Wallops.letter() == c); }
        if s.contains(UserModeFlag::TlsConnection) && c == 'Z' { assert(UserModeFlag::TlsConnection.letter() == c); }
    }
    user_mode_chars(s).unique_seq_to_set();
    assert forall|c: char| #[trigger] user_mode_chars(s).to_set().contains(c) <==> s.map(|f: UserModeFlag| f.letter()).contains(c) by {
        if s.map(|f: UserModeFlag| f.letter()).contains(c) {
            let f = choose|f: UserModeFlag| s.contains(f) && f.letter() == c;
            assert(user_mode_chars(s).contains(f.letter()));
        }
    }
    assert(user_mode_chars(s).to_set() =~= s.map(|f: UserModeFlag| f.letter()));
}

/// The letters of a set of channel modes name each mode of the set once and
/// nothing else: a flag's letter occurs exactly when the flag is in the set,
/// no letter twice, and distinct flags have distinct letters, so there are as
/// many letters as flags.
pub proof fn law_channel_mode_letters(s: Set<ChannelModeFlag>)
    ensures
        forall|f: ChannelModeFlag| channel_mode_chars(s).contains(#[trigger] f.letter()) <==> s.contains(f),
        forall|c: char| channel_mode_chars(s).contains(c) ==> exists|f: ChannelModeFlag| s.contains(f) && #[trigger] f.letter() == c,
        channel_mode_chars(s).no_duplicates(),
        channel_mode_chars(s).to_set().len() == channel_mode_chars(s).len(),
        channel_mode_chars(s).to_set() == s.map(|f: ChannelModeFlag| f.letter()),
        forall|f: ChannelModeFlag, g: ChannelModeFlag| f != g ==> #[trigger] f.letter() != #[trigger] g.letter(),
{
    let a0 = Seq::<char>::empty();
    lemma_add_letter(a0, s.contains(ChannelModeFlag::InviteOnly), 'i');
    assert(a0 + letter_if(s.contains(ChannelModeFlag::InviteOnly), 'i') =~= letter_if(s.contains(ChannelModeFlag::InviteOnly), 'i'));
    let a1 = letter_if(s.contains(ChannelModeFlag::InviteOnly), 'i');
    lemma_add_letter(a1, s.contains(ChannelModeFlag::NoExternal), 'n');
    let a2 = a1 + letter_if(s.contains(ChannelModeFlag::NoExternal), 'n');
    lemma_add_letter(a2, s.contains(ChannelModeFlag::Secret), 's');
    let a3 = a2 + letter_if(s.contains(ChannelModeFlag::Secret), 's');
    lemma_add_letter(a3, s.contains(ChannelModeFlag::TopicLock), 't');
    let a4 = a3 + letter_if(s.contains(ChannelModeFlag::TopicLock), 't');
    lemma_add_letter(a4, s.contains(ChannelModeFlag::Moderated), 'm');
    let a5 = a4 + letter_if(s.contains(ChannelModeFlag::Moderated), 'm');
    lemma_add_letter(a5, s.contains(ChannelModeFlag::NoColour), 'c');
    let whole = a5 + letter_if(s.contains(ChannelModeFlag::NoColour), 'c');
    assert(whole =~= channel_mode_chars(s));
    assert forall|x: char| channel_mode_chars(s).contains(x) <==> ((s.contains(ChannelModeFlag::InviteOnly) && x == 'i') || (s.contains(ChannelModeFlag::NoExternal) && x == 'n') || (s.contains(ChannelModeFlag::Secret) && x == 's') || (s.contains(ChannelModeFlag::TopicLock) && x == 't') || (s.contains(ChannelModeFlag::Moderated) && x == 'm') || (s.contains(ChannelModeFlag::NoColour) && x == 'c')) by {}
    assert forall|c: char| channel_mode_chars(s).contains(c) implies exists|f: ChannelModeFlag| s.contains(f) && #[trigger] f.letter() == c by {
        if s.contains(ChannelModeFlag::InviteOnly) && c == 'i' { assert(ChannelModeFlag::InviteOnly.letter() == c); }
        if s.contains(ChannelModeFlag::NoExternal) && c == 'n' { assert(ChannelModeFlag::NoExternal.letter() == c); }
        if s.contains(ChannelModeFlag::Secret) && c == 's' { assert(ChannelModeFlag::Secret.letter() == c); }
        if s.contains(ChannelModeFlag::TopicLock) && c == 't' { assert(ChannelModeFlag::TopicLock.letter() == c); }
        if s.contains(ChannelModeFlag::Moderated) && c == 'm' { assert(ChannelModeFlag::Moderated.letter() == c); }
        if s.contains(ChannelModeFlag::NoColour) && c == 'c' { assert(ChannelModeFlag::NoColour.letter() == c); }
    }
    channel_mode_chars(s).unique_seq_to_set();
    assert forall|c: char| #[trigger] channel_mode_chars(s).to_set().contains(c) <==> s.map(|f: ChannelModeFlag| f.letter()).contains(c) by {
        if s.map(|f: ChannelModeFlag| f.letter()).contains(c) {
            let f = choose|f: ChannelModeFlag| s.contains(f) && f.letter() == c;
            assert(channel_mode_chars(s).contains(f.letter()));
        }
    }
    assert(channel_mode_chars(s).to_set() =~= s.map(|f: ChannelModeFlag| f.letter()));
}

/// The letters of a set of member permissions name each permission of the
/// set once and nothing else: a flag's letter occurs exactly when the flag is
/// in the set, no letter twice, and distinct flags have distinct letters, so
/// there are as many letters as flags.
pub proof fn law_membership_letters(s: Set<MembershipFlagFlag>)
    ensures
        forall|f: MembershipFlagFlag| membership_chars(s).contains(#[trigger] f.letter()) <==> s.contains(f),
        forall|c: char| membership_chars(s).contains(c) ==> exists|f: MembershipFlagFlag| s.contains(f) && #[trigger] f.letter() == c,
        membership_chars(s).no_duplicates(),
        membership_chars(s).to_set().len() == membership_chars(s).len(),
        membership_chars(s).to_set() == s.map(|f: MembershipFlagFlag| f.letter()),
        forall|f: MembershipFlagFlag, g: MembershipFlagFlag| f != g ==> #[trigger] f.letter() != #[trigger] g.letter(),
{
    let a0 = Seq::<char>::empty();
    lemma_add_letter(a0, s.contains(MembershipFlagFlag::Op), 'o');
    assert(a0 + letter_if(s.contains(MembershipFlagFlag::Op), 'o') =~= letter_if(s.contains(MembershipFlagFlag::Op), 'o'));
    let a1 = letter_if(s.contains(MembershipFlagFlag::Op), 'o');
    lemma_add_letter(a1, s.contains(MembershipFlagFlag::Voice), 'v');
    let whole = a1 + letter_if(s.contains(MembershipFlagFlag::Voice), 'v');
    assert(whole =~= membership_chars(s));
    assert forall|x: char| membership_chars(s).contains(x) <==> ((s.contains(MembershipFlagFlag::Op) && x == 'o') || (s.contains(MembershipFlagFlag::Voice) && x == 'v')) by {}
    assert forall|c: char| membership_chars(s).contains(c) implies exists|f: MembershipFlagFlag| s.contains(f) && #[trigger] f.letter() == c by {
        if s.contains(MembershipFlagFlag::Op) && c == 'o' { assert(MembershipFlagFlag::Op.letter() == c); }
        if s.contains(MembershipFlagFlag::Voice) && c == 'v' { assert(MembershipFlagFlag::Voice.letter() == c); }
    }
    membership_chars(s).unique_seq_to_set();
    assert forall|c: char| #[trigger] membership_chars(s).to_set().contains(c) <==> s.map(|f: MembershipFlagFlag| f.letter()).contains(c) by {
        if s.map(|f: MembershipFlagFlag| f.letter()).contains(c) {
            let f = choose|f: MembershipFlagFlag| s.contains(f) && f.letter() == c;
            assert(membership_chars(s).contains(f.letter()));
        }
    }
    assert(membership_chars(s).to_set() =~= s.map(|f: MembershipFlagFlag| f.letter()));
}

/// A type of channel list mode.
#[derive(Clone, Copy, Debug, PartialEq, Eq, Structural)]
pub enum ListModeType {
    Ban,
    Quiet,
    Except,
    Invex,
}

impl ListModeType {
    /// The mode letter of this list.
    pub open spec fn letter(self) -> char {
        match self {
            ListModeType::Ban => 'b',
            ListModeType::Quiet => 'q',
            ListModeType::Except => 'e',
            ListModeType::Invex => 'I',
        }
    }

    /// The mode letter of this list.
    pub fn mode_letter(&self) -> (r: char)
        ensures
            r == self.letter(),
    {
        match self {
            ListModeType::Ban => 'b',
            ListModeType::Quiet => 'q',
            ListModeType::Except => 'e',
            ListModeType::Invex => 'I',
        }
    }
}

/// A channel mode that holds a key.
#[derive(Clone, Copy, Debug, PartialEq, Eq, Structural)]
pub enum KeyModeType {
    Key,
}

impl KeyModeType {
    /// The mode letter of this mode.
    pub fn mode_letter(&self) -> (r: char)
        ensures
            r == 'k',
    {
        'k'
    }
}

/// A change to an optional value.
#[derive(Debug)]
pub enum OptionChange<T> {
    /// The value is unchanged
    NoChange,
    /// The value is set to this one
    SetTo(T),
    /// The value is removed
    Unset,
}

impl<T> OptionChange<T> {
    /// Whether the value is set.
    pub fn is_set(&self) -> (r: bool)
        ensures
            r == self is SetTo,
    {
        match self {
            OptionChange::SetTo(_) => true,
            _ => false,
        }
    }

    /// Whether the value is removed.
    pub fn is_unset(&self) -> (r: bool)
        ensures
            r == self is Unset,
    {
        match self {
            OptionChange::Unset => true,
            _ => false,
        }
    }
}

/// A change to a channel's modes.
#[derive(Debug)]
pub struct ChannelModeChange {
    pub added: ChannelModeSet,
    pub removed: ChannelModeSet,
    pub key_change: OptionChange<ChannelKey>,
}

} // verus!
