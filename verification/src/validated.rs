//! Validated string types for names and identifiers: each holds a value
//! that fits its maximum length and, when made by validation, follows its rule.

use vstd::prelude::*;
use vstd::string::StrSliceExecFns;
use crate::text::{byte_len, char_width, lemma_encode_push, str_contains, truncate_to_bytes, without_char};
use vstd::utf8::encode_utf8;

verus! {

/// Lower-case ASCII letters.
pub const LOWER: &'static str = "abcdefghijklmnopqrstuvwxyz";
/// Upper-case ASCII letters.
pub const UPPER: &'static str = "ABCDEFGHIJKLMNOPQRSTUVWXYZ";
/// ASCII digits.
pub const DIGIT: &'static str = "0123456789";
/// The other characters a nickname may hold.
pub const NICK_EXTRA: &'static str = "-_\\|[]{}^`";
/// The other characters a server name may hold.
pub const SERVER_EXTRA: &'static str = "_-.";
/// The other characters a custom role name may hold.
pub const ROLE_EXTRA: &'static str = "-_";

/// A string holding a character outside the allowed sets.
#[derive(Debug)]
pub struct StringValidationError(pub String);

/// A type of validated strings.
pub trait Validated: Sized {
    type Underlying;
    type Error;

    /// Check whether the value is valid according to this type's rules.
    fn validate(value: &Self::Underlying) -> Result<(), Self::Error>;

    /// A new instance holding `value`, if it passes validation.
    fn new(value: Self::Underlying) -> Result<Self, Self::Error>;

    /// The stored value.
    fn value(&self) -> &Self::Underlying;

    /// A new instance holding a copy of `arg`, if it passes validation.
    fn convert(arg: &str) -> Result<Self, Self::Error>;
}

/// `c` occurs in one of the strings `sets`.
pub open spec fn allowed_char(c: char, sets: Seq<Seq<char>>) -> bool {
    exists|j: int| 0 <= j < sets.len() && #[trigger] sets[j].contains(c)
}

/// Every character of `s` occurs in one of the strings `sets`.
pub open spec fn all_allowed(s: Seq<char>, sets: Seq<Seq<char>>) -> bool {
    forall|i: int| 0 <= i < s.len() ==> #[trigger] allowed_char(s[i], sets)
}

/// The contents of a sequence of string slices.
pub open spec fn str_views(s: Seq<&str>) -> Seq<Seq<char>> {
    s.map_values(|x: &str| x@)
}

/// Check that every character of `value` occurs in one of `allowed_chars`.
pub fn check_allowed_chars(value: &str, allowed_chars: &[&str]) -> (r: Result<(), StringValidationError>)
    ensures
        r is Ok <==> all_allowed(value@, str_views(allowed_chars@)),
        r matches Err(e) ==> e.0@ == value@,
{
    let ghost sets = str_views(allowed_chars@);
    let n = value.unicode_len();
    let mut i: usize = 0;
    while i < n
        invariant
            i <= n,
            n == value@.len(),
            sets == str_views(allowed_chars@),
            forall|j: int| 0 <= j < i ==> #[trigger] allowed_char(value@[j], sets),
        decreases n - i,
    {
        let c = value.get_char(i);
        let mut found = false;
        let mut k: usize = 0;
        while k < allowed_chars.len()
            invariant
                k <= allowed_chars@.len(),
                sets == str_views(allowed_chars@),
                found == exists|j: int| 0 <= j < k && #[trigger] sets[j].contains(c),
            decreases allowed_chars@.len() - k,
        {
            if str_contains(allowed_chars[k], c) {
                found = true;
            }
            proof {
                assert(sets[k as int] == allowed_chars@[k as int]@);
            }
            k = k + 1;
        }
        if !found {
            proof {
                assert(!allowed_char(value@[i as int], sets));
            }
            return Err(StringValidationError(value.to_owned()));
        }
        i = i + 1;
    }
    Ok(())
}

/// Whether every character of `s` occurs in one of the four strings of `sets`.
fn allowed_in(s: &str, sets: &[&str; 4]) -> (r: bool)
    ensures
        r == all_allowed(s@, seq![sets[0]@, sets[1]@, sets[2]@, sets[3]@]),
{
    let r = check_allowed_chars(s, sets);
    proof {
        assert(str_views(sets@) =~= seq![sets[0]@, sets[1]@, sets[2]@, sets[3]@]);
    }
    r.is_ok()
}

/// Whether the UTF-8 encoding of `s` fits in `max` bytes.
pub fn fits_in_bytes(s: &str, max: usize) -> (r: bool)
    ensures
        r == (byte_len(s@) <= max),
{
    let n = s.unicode_len();
    let mut used: usize = 0;
    let mut i: usize = 0;
    proof {
        assert(s@.take(0) =~= Seq::<char>::empty());
        assert(encode_utf8(Seq::<char>::empty()) =~= Seq::<u8>::empty());
    }
    while i < n
        invariant
            i <= n,
            n == s@.len(),
            used == byte_len(s@.take(i as int)),
            used <= max,
        decreases n - i,
    {
        let c = s.get_char(i);
        let w = char_width(c);
        proof {
            assert(s@.take(i + 1) =~= s@.take(i as int).push(c));
            lemma_encode_push(s@.take(i as int), c);
        }
        if w > max - used {
            proof {
                crate::text::lemma_byte_len_prefix(s@, i + 1, n as int);
                assert(s@.take(n as int) =~= s@);
            }
            return false;
        }
        used = used + w;
        i = i + 1;
    }
    proof {
        assert(s@.take(n as int) =~= s@);
    }
    true
}

/// A character allowed in a channel key: printable ASCII other than space,
/// colon and comma.
pub open spec fn key_char(c: char) -> bool {
    ' ' < c && c <= '~' && c != ':' && c != ','
}

fn is_key_char(c: char) -> (r: bool)
    ensures
        r == key_char(c),
{
    c > ' ' && c <= '~' && c != ':' && c != ','
}

/// `p` is the longest prefix of `s` whose encoding fits in `max` bytes.
pub open spec fn fitting_prefix(s: Seq<char>, p: Seq<char>, max: nat) -> bool {
    &&& p.len() <= s.len()
    &&& p == s.take(p.len() as int)
    &&& byte_len(p) <= max
    &&& (p.len() == s.len() || byte_len(s.take(p.len() as int + 1)) > max)
}

/// A reason given for being away.
#[derive(Debug)]
pub struct AwayReason {
    value: String,
}

/// A value that is not a valid [`AwayReason`].
#[derive(Debug)]
pub struct InvalidAwayReason(pub String);

impl View for AwayReason {
    type V = Seq<char>;

    closed spec fn view(&self) -> Seq<char> {
        self.value@
    }
}

impl AwayReason {
    /// Maximum length, in bytes
    pub const LENGTH: usize = 300;

    #[verifier::type_invariant]
    closed spec fn fits(&self) -> bool {
        byte_len(self.value@) <= 300
    }

    /// The rule a value must follow, besides its length.
    pub open spec fn rule(s: Seq<char>) -> bool {
        s.len() > 0
    }

    /// A valid value: at most [`LENGTH`](Self::LENGTH) bytes, and following the rule.
    pub open spec fn valid(s: Seq<char>) -> bool {
        byte_len(s) <= 300 && Self::rule(s)
    }

    /// A copy of this value.
    pub fn duplicate(&self) -> (r: AwayReason)
        ensures
            r@ == self@,
    {
        proof {
            use_type_invariant(self);
        }
        AwayReason { value: self.value.clone() }
    }

    fn check_rule(value: &String) -> (r: bool)
        ensures
            r == Self::rule(value@),
    {
        !value.as_str().is_empty()
    }
}

impl Validated for AwayReason {
    type Underlying = String;
    type Error = InvalidAwayReason;

    fn validate(value: &String) -> (r: Result<(), InvalidAwayReason>)
        ensures
            r is Ok <==> Self::valid(value@),
            r matches Err(e) ==> e.0@ == value@,
    {
        if fits_in_bytes(value.as_str(), Self::LENGTH) && Self::check_rule(value) {
            Ok(())
        } else {
            Err(InvalidAwayReason(value.clone()))
        }
    }

    fn new(value: String) -> (r: Result<AwayReason, InvalidAwayReason>)
        ensures
            match r {
                Ok(v) => Self::valid(value@) && v@ == value@,
                Err(e) => !Self::valid(value@) && e.0@ == value@,
            },
    {
        match Self::validate(&value) {
            Ok(()) => Ok(AwayReason { value }),
            Err(e) => Err(e),
        }
    }

    fn value(&self) -> (r: &String)
        ensures
            r@ == self@,
    {
        &self.value
    }

    fn convert(arg: &str) -> (r: Result<AwayReason, InvalidAwayReason>)
        ensures
            match r {
                Ok(v) => Self::valid(arg@) && v@ == arg@,
                Err(e) => !Self::valid(arg@) && e.0@ == arg@,
            },
    {
        Self::new(arg.to_owned())
    }
}

/// A user's nickname.
#[derive(Debug)]
pub struct Nickname {
    value: String,
}

/// A value that is not a valid [`Nickname`].
#[derive(Debug)]
pub struct InvalidNickname(pub String);

impl View for Nickname {
    type V = Seq<char>;

    closed spec fn view(&self) -> Seq<char> {
        self.value@
    }
}

impl Nickname {
    /// Maximum length, in bytes
    pub const LENGTH: usize = 15;

    #[verifier::type_invariant]
    closed spec fn fits(&self) -> bool {
        byte_len(self.value@) <= 15
    }

    /// The rule a value must follow, besides its length.
    pub open spec fn rule(s: Seq<char>) -> bool {
        all_allowed(s, seq![LOWER@, UPPER@, DIGIT@, NICK_EXTRA@]) && s.len() > 0 && !(DIGIT@.contains(s[0]) || s[0] == '-')
    }

    /// A valid value: at most [`LENGTH`](Self::LENGTH) bytes, and following the rule.
    pub open spec fn valid(s: Seq<char>) -> bool {
        byte_len(s) <= 15 && Self::rule(s)
    }

    /// A copy of this value.
    pub fn duplicate(&self) -> (r: Nickname)
        ensures
            r@ == self@,
    {
        proof {
            use_type_invariant(self);
        }
        Nickname { value: self.value.clone() }
    }

    fn check_rule(value: &String) -> (r: bool)
        ensures
            r == Self::rule(value@),
    {
        let s = value.as_str();
        if !allowed_in(s, &[LOWER, UPPER, DIGIT, NICK_EXTRA]) {
            return false;
        }
        if s.is_empty() {
            return false;
        }
        let first = s.get_char(0);
        !(str_contains(DIGIT, first) || first == '-')
    }
}

impl Validated for Nickname {
    type Underlying = String;
    type Error = InvalidNickname;

    fn validate(value: &String) -> (r: Result<(), InvalidNickname>)
        ensures
            r is Ok <==> Self::valid(value@),
            r matches Err(e) ==> e.0@ == value@,
    {
        if fits_in_bytes(value.as_str(), Self::LENGTH) && Self::check_rule(value) {
            Ok(())
        } else {
            Err(InvalidNickname(value.clone()))
        }
    }

    fn new(value: String) -> (r: Result<Nickname, InvalidNickname>)
        ensures
            match r {
                Ok(v) => Self::valid(value@) && v@ == value@,
                Err(e) => !Self::valid(value@) && e.0@ == value@,
            },
    {
        match Self::validate(&value) {
            Ok(()) => Ok(Nickname { value }),
            Err(e) => Err(e),
        }
    }

    fn value(&self) -> (r: &String)
        ensures
            r@ == self@,
    {
        &self.value
    }

    fn convert(arg: &str) -> (r: Result<Nickname, InvalidNickname>)
        ensures
            match r {
                Ok(v) => Self::valid(arg@) && v@ == arg@,
                Err(e) => !Self::valid(arg@) && e.0@ == arg@,
            },
    {
        Self::new(arg.to_owned())
    }
}

/// The user name part of a user's hostmask.
#[derive(Debug)]
pub struct Username {
    value: String,
}

/// A value that is not a valid [`Username`].
#[derive(Debug)]
pub struct InvalidUsername(pub String);

impl View for Username {
    type V = Seq<char>;

    closed spec fn view(&self) -> Seq<char> {
        self.value@
    }
}

impl Username {
    /// Maximum length, in bytes
    pub const LENGTH: usize = 10;

    #[verifier::type_invariant]
    closed spec fn fits(&self) -> bool {
        byte_len(self.value@) <= 10
    }

    /// The rule a value must follow, besides its length.
    pub open spec fn rule(s: Seq<char>) -> bool {
        s.len() > 0
    }

    /// A valid value: at most [`LENGTH`](Self::LENGTH) bytes, and following the rule.
    pub open spec fn valid(s: Seq<char>) -> bool {
        byte_len(s) <= 10 && Self::rule(s)
    }

    /// A copy of this value.
    pub fn duplicate(&self) -> (r: Username)
        ensures
            r@ == self@,
    {
        proof {
            use_type_invariant(self);
        }
        Username { value: self.value.clone() }
    }

    fn check_rule(value: &String) -> (r: bool)
        ensures
            r == Self::rule(value@),
    {
        !value.as_str().is_empty()
    }
}

impl Validated for Username {
    type Underlying = String;
    type Error = InvalidUsername;

    fn validate(value: &String) -> (r: Result<(), InvalidUsername>)
        ensures
            r is Ok <==> Self::valid(value@),
            r matches Err(e) ==> e.0@ == value@,
    {
        if fits_in_bytes(value.as_str(), Self::LENGTH) && Self::check_rule(value) {
            Ok(())
        } else {
            Err(InvalidUsername(value.clone()))
        }
    }

    fn new(value: String) -> (r: Result<Username, InvalidUsername>)
        ensures
            match r {
                Ok(v) => Self::valid(value@) && v@ == value@,
                Err(e) => !Self::valid(value@) && e.0@ == value@,
            },
    {
        match Self::validate(&value) {
            Ok(()) => Ok(Username { value }),
            Err(e) => Err(e),
        }
    }

    fn value(&self) -> (r: &String)
        ensures
            r@ == self@,
    {
        &self.value
    }

    fn convert(arg: &str) -> (r: Result<Username, InvalidUsername>)
        ensures
            match r {
                Ok(v) => Self::valid(arg@) && v@ == arg@,
                Err(e) => !Self::valid(arg@) && e.0@ == arg@,
            },
    {
        Self::new(arg.to_owned())
    }
}

/// A user's real name.
#[derive(Debug)]
pub struct Realname {
    value: String,
}

/// A value that is not a valid [`Realname`].
#[derive(Debug)]
pub struct InvalidRealname(pub String);

impl View for Realname {
    type V = Seq<char>;

    closed spec fn view(&self) -> Seq<char> {
        self.value@
    }
}

impl Realname {
    /// Maximum length, in bytes
    pub const LENGTH: usize = 64;

    #[verifier::type_invariant]
    closed spec fn fits(&self) -> bool {
        byte_len(self.value@) <= 64
    }

    /// The rule a value must follow, besides its length.
    pub open spec fn rule(s: Seq<char>) -> bool {
        s.len() > 0
    }

    /// A valid value: at most [`LENGTH`](Self::LENGTH) bytes, and following the rule.
    pub open spec fn valid(s: Seq<char>) -> bool {
        byte_len(s) <= 64 && Self::rule(s)
    }

    /// A copy of this value.
    pub fn duplicate(&self) -> (r: Realname)
        ensures
            r@ == self@,
    {
        proof {
            use_type_invariant(self);
        }
        Realname { value: self.value.clone() }
    }

    fn check_rule(value: &String) -> (r: bool)
        ensures
            r == Self::rule(value@),
    {
        !value.as_str().is_empty()
    }
}

impl Validated for Realname {
    type Underlying = String;
    type Error = InvalidRealname;

    fn validate(value: &String) -> (r: Result<(), InvalidRealname>)
        ensures
            r is Ok <==> Self::valid(value@),
            r matches Err(e) ==> e.0@ == value@,
    {
        if fits_in_bytes(value.as_str(), Self::LENGTH) && Self::check_rule(value) {
            Ok(())
        } else {
            Err(InvalidRealname(value.clone()))
        }
    }

    fn new(value: String) -> (r: Result<Realname, InvalidRealname>)
        ensures
            match r {
                Ok(v) => Self::valid(value@) && v@ == value@,
                Err(e) => !Self::valid(value@) && e.0@ == value@,
            },
    {
        match Self::validate(&value) {
            Ok(()) => Ok(Realname { value }),
            Err(e) => Err(e),
        }
    }

    fn value(&self) -> (r: &String)
        ensures
            r@ == self@,
    {
        &self.value
    }

    fn convert(arg: &str) -> (r: Result<Realname, InvalidRealname>)
        ensures
            match r {
                Ok(v) => Self::valid(arg@) && v@ == arg@,
                Err(e) => !Self::valid(arg@) && e.0@ == arg@,
            },
    {
        Self::new(arg.to_owned())
    }
}

/// A host name.
#[derive(Debug)]
pub struct Hostname {
    value: String,
}

/// A value that is not a valid [`Hostname`].
#[derive(Debug)]
pub struct InvalidHostname(pub String);

impl View for Hostname {
    type V = Seq<char>;

    closed spec fn view(&self) -> Seq<char> {
        self.value@
    }
}

impl Hostname {
    /// Maximum length, in bytes
    pub const LENGTH: usize = 64;

    #[verifier::type_invariant]
    closed spec fn fits(&self) -> bool {
        byte_len(self.value@) <= 64
    }

    /// The rule a value must follow, besides its length.
    pub open spec fn rule(s: Seq<char>) -> bool {
        true
    }

    /// A valid value: at most [`LENGTH`](Self::LENGTH) bytes, and following the rule.
    pub open spec fn valid(s: Seq<char>) -> bool {
        byte_len(s) <= 64 && Self::rule(s)
    }

    /// A copy of this value.
    pub fn duplicate(&self) -> (r: Hostname)
        ensures
            r@ == self@,
    {
        proof {
            use_type_invariant(self);
        }
        Hostname { value: self.value.clone() }
    }

    fn check_rule(value: &String) -> (r: bool)
        ensures
            r == Self::rule(value@),
    {
        true
    }
}

impl Validated for Hostname {
    type Underlying = String;
    type Error = InvalidHostname;

    fn validate(value: &String) -> (r: Result<(), InvalidHostname>)
        ensures
            r is Ok <==> Self::valid(value@),
            r matches Err(e) ==> e.0@ == value@,
    {
        if fits_in_bytes(value.as_str(), Self::LENGTH) && Self::check_rule(value) {
            Ok(())
        } else {
            Err(InvalidHostname(value.clone()))
        }
    }

    fn new(value: String) -> (r: Result<Hostname, InvalidHostname>)
        ensures
            match r {
                Ok(v) => Self::valid(value@) && v@ == value@,
                Err(e) => !Self::valid(value@) && e.0@ == value@,
            },
    {
        match Self::validate(&value) {
            Ok(()) => Ok(Hostname { value }),
            Err(e) => Err(e),
        }
    }

    fn value(&self) -> (r: &String)
        ensures
            r@ == self@,
    {
        &self.value
    }

    fn convert(arg: &str) -> (r: Result<Hostname, InvalidHostname>)
        ensures
            match r {
                Ok(v) => Self::valid(arg@) && v@ == arg@,
                Err(e) => !Self::valid(arg@) && e.0@ == arg@,
            },
    {
        Self::new(arg.to_owned())
    }
}

/// The name of a channel: it starts with `#` or `&`.
#[derive(Debug)]
pub struct ChannelName {
    value: String,
}

/// A value that is not a valid [`ChannelName`].
#[derive(Debug)]
pub struct InvalidChannelName(pub String);

impl View for ChannelName {
    type V = Seq<char>;

    closed spec fn view(&self) -> Seq<char> {
        self.value@
    }
}

impl ChannelName {
    /// Maximum length, in bytes
    pub const LENGTH: usize = 64;

    #[verifier::type_invariant]
    closed spec fn fits(&self) -> bool {
        byte_len(self.value@) <= 64
    }

    /// The rule a value must follow, besides its length.
    pub open spec fn rule(s: Seq<char>) -> bool {
        s.len() > 0 && (s[0] == '#' || s[0] == '&')
    }

    /// A valid value: at most [`LENGTH`](Self::LENGTH) bytes, and following the rule.
    pub open spec fn valid(s: Seq<char>) -> bool {
        byte_len(s) <= 64 && Self::rule(s)
    }

    /// A copy of this value.
    pub fn duplicate(&self) -> (r: ChannelName)
        ensures
            r@ == self@,
    {
        proof {
            use_type_invariant(self);
        }
        ChannelName { value: self.value.clone() }
    }

    fn check_rule(value: &String) -> (r: bool)
        ensures
            r == Self::rule(value@),
    {
        let s = value.as_str();
        if s.is_empty() {
            return false;
        }
        let first = s.get_char(0);
        first == '#' || first == '&'
    }
}

impl Validated for ChannelName {
    type Underlying = String;
    type Error = InvalidChannelName;

    fn validate(value: &String) -> (r: Result<(), InvalidChannelName>)
        ensures
            r is Ok <==> Self::valid(value@),
            r matches Err(e) ==> e.0@ == value@,
    {
        if fits_in_bytes(value.as_str(), Self::LENGTH) && Self::check_rule(value) {
            Ok(())
        } else {
            Err(InvalidChannelName(value.clone()))
        }
    }

    fn new(value: String) -> (r: Result<ChannelName, InvalidChannelName>)
        ensures
            match r {
                Ok(v) => Self::valid(value@) && v@ == value@,
                Err(e) => !Self::valid(value@) && e.0@ == value@,
            },
    {
        match Self::validate(&value) {
            Ok(()) => Ok(ChannelName { value }),
            Err(e) => Err(e),
        }
    }

    fn value(&self) -> (r: &String)
        ensures
            r@ == self@,
    {
        &self.value
    }

    fn convert(arg: &str) -> (r: Result<ChannelName, InvalidChannelName>)
        ensures
            match r {
                Ok(v) => Self::valid(arg@) && v@ == arg@,
                Err(e) => !Self::valid(arg@) && e.0@ == arg@,
            },
    {
        Self::new(arg.to_owned())
    }
}

/// The name of a server.
#[derive(Debug)]
pub struct ServerName {
    value: String,
}

/// A value that is not a valid [`ServerName`].
#[derive(Debug)]
pub struct InvalidServerName(pub String);

impl View for ServerName {
    type V = Seq<char>;

    closed spec fn view(&self) -> Seq<char> {
        self.value@
    }
}

impl ServerName {
    /// Maximum length, in bytes
    pub const LENGTH: usize = 64;

    #[verifier::type_invariant]
    closed spec fn fits(&self) -> bool {
        byte_len(self.value@) <= 64
    }

    /// The rule a value must follow, besides its length.
    pub open spec fn rule(s: Seq<char>) -> bool {
        all_allowed(s, seq![UPPER@, LOWER@, DIGIT@, SERVER_EXTRA@]) && s.len() > 0 && !(DIGIT@.contains(s[0]) || s[0] == '-')
    }

    /// A valid value: at most [`LENGTH`](Self::LENGTH) bytes, and following the rule.
    pub open spec fn valid(s: Seq<char>) -> bool {
        byte_len(s) <= 64 && Self::rule(s)
    }

    /// A copy of this value.
    pub fn duplicate(&self) -> (r: ServerName)
        ensures
            r@ == self@,
    {
        proof {
            use_type_invariant(self);
        }
        ServerName { value: self.value.clone() }
    }

    fn check_rule(value: &String) -> (r: bool)
        ensures
            r == Self::rule(value@),
    {
        let s = value.as_str();
        if !allowed_in(s, &[UPPER, LOWER, DIGIT, SERVER_EXTRA]) {
            return false;
        }
        if s.is_empty() {
            return false;
        }
        let first = s.get_char(0);
        !(str_contains(DIGIT, first) || first == '-')
    }
}

impl Validated for ServerName {
    type Underlying = String;
    type Error = InvalidServerName;

    fn validate(value: &String) -> (r: Result<(), InvalidServerName>)
        ensures
            r is Ok <==> Self::valid(value@),
            r matches Err(e) ==> e.0@ == value@,
    {
        if fits_in_bytes(value.as_str(), Self::LENGTH) && Self::check_rule(value) {
            Ok(())
        } else {
            Err(InvalidServerName(value.clone()))
        }
    }

    fn new(value: String) -> (r: Result<ServerName, InvalidServerName>)
        ensures
            match r {
                Ok(v) => Self::valid(value@) && v@ == value@,
                Err(e) => !Self::valid(value@) && e.0@ == value@,
            },
    {
        match Self::validate(&value) {
            Ok(()) => Ok(ServerName { value }),
            Err(e) => Err(e),
        }
    }

    fn value(&self) -> (r: &String)
        ensures
            r@ == self@,
    {
        &self.value
    }

    fn convert(arg: &str) -> (r: Result<ServerName, InvalidServerName>)
        ensures
            match r {
                Ok(v) => Self::valid(arg@) && v@ == arg@,
                Err(e) => !Self::valid(arg@) && e.0@ == arg@,
            },
    {
        Self::new(arg.to_owned())
    }
}

/// The key of a channel: printable ASCII other than space, colon and comma.
#[derive(Debug)]
pub struct ChannelKey {
    value: String,
}

/// A value that is not a valid [`ChannelKey`].
#[derive(Debug)]
pub struct InvalidChannelKey(pub String);

impl View for ChannelKey {
    type V = Seq<char>;

    closed spec fn view(&self) -> Seq<char> {
        self.value@
    }
}

impl ChannelKey {
    /// Maximum length, in bytes
    pub const LENGTH: usize = 64;

    #[verifier::type_invariant]
    closed spec fn fits(&self) -> bool {
        byte_len(self.value@) <= 64
    }

    /// The rule a value must follow, besides its length.
    pub open spec fn rule(s: Seq<char>) -> bool {
        s.len() > 0 && forall|i: int| 0 <= i < s.len() ==> #[trigger] key_char(s[i])
    }

    /// A valid value: at most [`LENGTH`](Self::LENGTH) bytes, and following the rule.
    pub open spec fn valid(s: Seq<char>) -> bool {
        byte_len(s) <= 64 && Self::rule(s)
    }

    fn check_rule(value: &String) -> (r: bool)
        ensures
            r == Self::rule(value@),
    {
        let s = value.as_str();
        let n = s.unicode_len();
        let mut i: usize = 0;
        while i < n
            invariant
                i <= n,
                n == s@.len(),
                s@ == value@,
                forall|j: int| 0 <= j < i ==> #[trigger] key_char(s@[j]),
            decreases n - i,
        {
            if !is_key_char(s.get_char(i)) {
                return false;
            }
            i = i + 1;
        }
        n > 0
    }
}

impl Validated for ChannelKey {
    type Underlying = String;
    type Error = InvalidChannelKey;

    fn validate(value: &String) -> (r: Result<(), InvalidChannelKey>)
        ensures
            r is Ok <==> Self::valid(value@),
            r matches Err(e) ==> e.0@ == value@,
    {
        if fits_in_bytes(value.as_str(), Self::LENGTH) && Self::check_rule(value) {
            Ok(())
        } else {
            Err(InvalidChannelKey(value.clone()))
        }
    }

    fn new(value: String) -> (r: Result<ChannelKey, InvalidChannelKey>)
        ensures
            match r {
                Ok(v) => Self::valid(value@) && v@ == value@,
                Err(e) => !Self::valid(value@) && e.0@ == value@,
            },
    {
        match Self::validate(&value) {
            Ok(()) => Ok(ChannelKey { value }),
            Err(e) => Err(e),
        }
    }

    fn value(&self) -> (r: &String)
        ensures
            r@ == self@,
    {
        &self.value
    }

    fn convert(arg: &str) -> (r: Result<ChannelKey, InvalidChannelKey>)
        ensures
            match r {
                Ok(v) => Self::valid(arg@) && v@ == arg@,
                Err(e) => !Self::valid(arg@) && e.0@ == arg@,
            },
    {
        Self::new(arg.to_owned())
    }
}

/// The name of a custom channel role.
#[derive(Debug)]
pub struct CustomRoleName {
    value: String,
}

/// A value that is not a valid [`CustomRoleName`].
#[derive(Debug)]
pub struct InvalidCustomRoleName(pub String);

impl View for CustomRoleName {
    type V = Seq<char>;

    closed spec fn view(&self) -> Seq<char> {
        self.value@
    }
}

impl CustomRoleName {
    /// Maximum length, in bytes
    pub const LENGTH: usize = 32;

    #[verifier::type_invariant]
    closed spec fn fits(&self) -> bool {
        byte_len(self.value@) <= 32
    }

    /// The rule a value must follow, besides its length.
    pub open spec fn rule(s: Seq<char>) -> bool {
        all_allowed(s, seq![UPPER@, LOWER@, DIGIT@, ROLE_EXTRA@])
    }

    /// A valid value: at most [`LENGTH`](Self::LENGTH) bytes, and following the rule.
    pub open spec fn valid(s: Seq<char>) -> bool {
        byte_len(s) <= 32 && Self::rule(s)
    }

    /// A copy of this value.
    pub fn duplicate(&self) -> (r: CustomRoleName)
        ensures
            r@ == self@,
    {
        proof {
            use_type_invariant(self);
        }
        CustomRoleName { value: self.value.clone() }
    }

    fn check_rule(value: &String) -> (r: bool)
        ensures
            r == Self::rule(value@),
    {
        allowed_in(value.as_str(), &[UPPER, LOWER, DIGIT, ROLE_EXTRA])
    }
}

impl Validated for CustomRoleName {
    type Underlying = String;
    type Error = InvalidCustomRoleName;

    fn validate(value: &String) -> (r: Result<(), InvalidCustomRoleName>)
        ensures
            r is Ok <==> Self::valid(value@),
            r matches Err(e) ==> e.0@ == value@,
    {
        if fits_in_bytes(value.as_str(), Self::LENGTH) && Self::check_rule(value) {
            Ok(())
        } else {
            Err(InvalidCustomRoleName(value.clone()))
        }
    }

    fn new(value: String) -> (r: Result<CustomRoleName, InvalidCustomRoleName>)
        ensures
            match r {
                Ok(v) => Self::valid(value@) && v@ == value@,
                Err(e) => !Self::valid(value@) && e.0@ == value@,
            },
    {
        match Self::validate(&value) {
            Ok(()) => Ok(CustomRoleName { value }),
            Err(e) => Err(e),
        }
    }

    fn value(&self) -> (r: &String)
        ensures
            r@ == self@,
    {
        &self.value
    }

    fn convert(arg: &str) -> (r: Result<CustomRoleName, InvalidCustomRoleName>)
        ensures
            match r {
                Ok(v) => Self::valid(arg@) && v@ == arg@,
                Err(e) => !Self::valid(arg@) && e.0@ == arg@,
            },
    {
        Self::new(arg.to_owned())
    }
}

impl Nickname {
    /// A nickname holding `value` without checking its characters; for
    /// renaming users whose nicknames collide.
    pub fn new_for_collision(value: String) -> (r: Result<Nickname, InvalidNickname>)
        requires
            byte_len(value@) <= Nickname::LENGTH,
        ensures
            r matches Ok(n) && n@ == value@,
    {
        Ok(Nickname { value })
    }
}

impl Username {
    /// Coerce `s` into a user name: remove every `[`, keep the longest
    /// prefix that fits in [`LENGTH`](Self::LENGTH) bytes, and check that
    /// the result is not empty.
    pub fn new_coerce(s: &str) -> (r: Result<Username, InvalidUsername>)
        ensures
            match r {
                Ok(u) => fitting_prefix(s@.filter(|c: char| c != '['), u@, Username::LENGTH as nat) && u@.len() > 0
                    && Username::valid(u@),
                Err(e) => fitting_prefix(s@.filter(|c: char| c != '['), e.0@, Username::LENGTH as nat) && e.0@.len() == 0,
            },
    {
        let t = without_char(s, '[');
        let u = truncate_to_bytes(t.as_str(), Self::LENGTH);
        Self::new(u)
    }
}

impl Realname {
    /// Coerce `s` into a real name: remove every `[`, keep the longest
    /// prefix that fits in [`LENGTH`](Self::LENGTH) bytes, and check that
    /// the result is not empty.
    pub fn new_coerce(s: &str) -> (r: Result<Realname, InvalidRealname>)
        ensures
            match r {
                Ok(u) => fitting_prefix(s@.filter(|c: char| c != '['), u@, Realname::LENGTH as nat) && u@.len() > 0
                    && Realname::valid(u@),
                Err(e) => fitting_prefix(s@.filter(|c: char| c != '['), e.0@, Realname::LENGTH as nat) && e.0@.len() == 0,
            },
    {
        let t = without_char(s, '[');
        let u = truncate_to_bytes(t.as_str(), Self::LENGTH);
        Self::new(u)
    }
}

/// `s` without the characters that a channel key cannot hold.
fn key_chars_only(s: &str) -> (r: String)
    ensures
        r@ == s@.filter(|c: char| key_char(c)),
{
    let n = s.unicode_len();
    let mut out = String::new();
    let mut i: usize = 0;
    proof {
        reveal(Seq::filter);
        assert(s@.take(0) =~= Seq::<char>::empty());
    }
    while i < n
        invariant
            i <= n,
            n == s@.len(),
            out@ == s@.take(i as int).filter(|c: char| key_char(c)),
        decreases n - i,
    {
        let d = s.get_char(i);
        proof {
            reveal(Seq::filter);
            assert(s@.take(i + 1).drop_last() =~= s@.take(i as int));
        }
        if is_key_char(d) {
            out.push(d);
        }
        i = i + 1;
    }
    proof {
        assert(s@.take(n as int) =~= s@);
    }
    out
}

impl ChannelKey {
    /// Coerce `s` into a channel key: remove the characters a key cannot
    /// hold, keep the longest prefix that fits in [`LENGTH`](Self::LENGTH)
    /// bytes, and check that the result is not empty.
    pub fn new_coerce(s: &str) -> (r: Result<ChannelKey, InvalidChannelKey>)
        ensures
            match r {
                Ok(k) => fitting_prefix(s@.filter(|c: char| key_char(c)), k@, ChannelKey::LENGTH as nat) && k@.len() > 0
                    && ChannelKey::valid(k@),
                Err(e) => fitting_prefix(s@.filter(|c: char| key_char(c)), e.0@, ChannelKey::LENGTH as nat) && e.0@.len() == 0,
            },
    {
        let t = key_chars_only(s);
        let u = truncate_to_bytes(t.as_str(), Self::LENGTH);
        proof {
            let f = s@.filter(|c: char| key_char(c));
            assert(t@ == f);
            assert forall|i: int| 0 <= i < u@.len() implies #[trigger] key_char(u@[i]) by {
                assert(u@[i] == f[i]);
                s@.lemma_filter_pred(|c: char| key_char(c), i);
            }
        }
        Self::new(u)
    }

    /// A copy of this key.
    pub fn duplicate(&self) -> (r: ChannelKey)
        ensures
            r@ == self@,
    {
        proof {
            use_type_invariant(self);
        }
        ChannelKey { value: self.value.clone() }
    }
}

/// Filtering keeps a sequence whose every element passes.
proof fn lemma_filter_all(s: Seq<char>, pred: spec_fn(char) -> bool)
    requires
        forall|i: int| 0 <= i < s.len() ==> pred(#[trigger] s[i]),
    ensures
        s.filter(pred) == s,
    decreases s.len(),
{
    reveal(Seq::filter);
    if s.len() > 0 {
        lemma_filter_all(s.drop_last(), pred);
        assert(s.drop_last().push(s.last()) =~= s);
    }
}

/// A sequence that fits in `max` bytes is its own longest fitting prefix.
proof fn lemma_fitting_prefix_whole(s: Seq<char>, p: Seq<char>, max: nat)
    requires
        byte_len(s) <= max,
        fitting_prefix(s, p, max),
    ensures
        p == s,
{
    if p.len() < s.len() {
        crate::text::lemma_byte_len_prefix(s, p.len() as int + 1, s.len() as int);
        assert(s.take(s.len() as int) =~= s);
    } else {
        assert(s.take(s.len() as int) =~= s);
    }
}

/// Coercing a valid channel key gives it back unchanged.
pub proof fn law_coerce_keeps_valid_key(s: Seq<char>, p: Seq<char>)
    requires
        ChannelKey::valid(s),
        fitting_prefix(s.filter(|c: char| key_char(c)), p, ChannelKey::LENGTH as nat),
    ensures
        p == s,
{
    lemma_filter_all(s, |c: char| key_char(c));
    lemma_fitting_prefix_whole(s, p, ChannelKey::LENGTH as nat);
}

/// Coercing a valid user name without `[` gives it back unchanged.
pub proof fn law_coerce_keeps_valid_username(s: Seq<char>, p: Seq<char>)
    requires
        Username::valid(s),
        !s.contains('['),
        fitting_prefix(s.filter(|c: char| c != '['), p, Username::LENGTH as nat),
    ensures
        p == s,
{
    assert forall|i: int| 0 <= i < s.len() implies (|c: char| c != '[')(#[trigger] s[i]) by {
        if s[i] == '[' {
            assert(s.contains('['));
        }
    }
    lemma_filter_all(s, |c: char| c != '[');
    lemma_fitting_prefix_whole(s, p, Username::LENGTH as nat);
}

/// A channel name is valid exactly when it is non-empty, starts with `#`
/// or `&`, and takes at most 64 bytes: no name starting with any other
/// character is a channel name.
pub proof fn law_channel_name_shape(s: Seq<char>)
    ensures
        ChannelName::valid(s) ==> s.len() > 0 && (s[0] == '#' || s[0] == '&'),
        ChannelName::valid(s) ==> byte_len(s) <= 64,
        s.len() > 0 && (s[0] == '#' || s[0] == '&') && byte_len(s) <= 64 ==> ChannelName::valid(s),
{
}

/// A nickname or a server name never starts with a digit or `-`, and is
/// never empty.
pub proof fn law_names_start_with_a_letter_or_symbol(s: Seq<char>)
    ensures
        Nickname::valid(s) ==> s.len() > 0 && !('0' <= s[0] && s[0] <= '9') && s[0] != '-',
        ServerName::valid(s) ==> s.len() > 0 && !('0' <= s[0] && s[0] <= '9') && s[0] != '-',
{
    reveal_strlit("0123456789");
    if s.len() > 0 && '0' <= s[0] && s[0] <= '9' {
        let k = s[0] as int - '0' as int;
        assert(DIGIT@[k] == s[0]);
        assert(DIGIT@.contains(s[0]));
    }
}

} // verus!
