//! Wildcard patterns, addresses and networks, and the matchers built on them.

use vstd::prelude::*;
use crate::validated::{Nickname, Validated};

verus! {

/// Whether `input` matches the wildcard pattern `pattern`, where `*`
/// matches zero or more characters and `?` exactly one, comparing
/// characters without regard to case.
pub uninterp spec fn wildcard_matches(pattern: Seq<char>, input: Seq<char>) -> bool;

/// Calls wildmatch's `WildMatch::new_case_insensitive(pattern).matches(input)`:
/// the result is named [`wildcard_matches`], a function of the pattern and
/// the input alone; nothing more of it is stated here.
#[verifier::external_body]
fn wildcard_match(pattern: &str, input: &str) -> (r: bool)
    ensures
        r == wildcard_matches(pattern@, input@),
{
    wildmatch::WildMatch::new_case_insensitive(pattern).matches(input)
}

/// A wildcard pattern: `*` matches zero or more characters, `?` exactly one.
#[derive(Debug)]
pub struct Pattern(String);

impl View for Pattern {
    type V = Seq<char>;

    closed spec fn view(&self) -> Seq<char> {
        self.0@
    }
}

impl Pattern {
    /// A pattern with the given text.
    pub fn new(s: String) -> (r: Pattern)
        ensures
            r@ == s@,
    {
        Pattern(s)
    }

    /// The text of the pattern.
    pub fn as_str(&self) -> (r: &str)
        ensures
            r@ == self@,
    {
        self.0.as_str()
    }

    /// Whether `s` matches this pattern; the comparison is always
    /// case-insensitive.
    pub fn matches(&self, s: &str) -> (r: bool)
        ensures
            r == wildcard_matches(self@, s@),
    {
        wildcard_match(self.0.as_str(), s)
    }

    /// A copy of this pattern.
    pub fn duplicate(&self) -> (r: Pattern)
        ensures
            r@ == self@,
    {
        Pattern(self.0.clone())
    }
}

/// Matches nicknames against a pattern.
#[derive(Debug)]
pub struct NicknameMatcher(Pattern);

impl View for NicknameMatcher {
    type V = Seq<char>;

    closed spec fn view(&self) -> Seq<char> {
        self.0@
    }
}

impl NicknameMatcher {
    /// A matcher for the given pattern.
    pub fn new(pattern: Pattern) -> (r: NicknameMatcher)
        ensures
            r@ == pattern@,
    {
        NicknameMatcher(pattern)
    }

    /// The pattern.
    pub fn pattern(&self) -> (r: &Pattern)
        ensures
            r@ == self@,
    {
        &self.0
    }

    /// Whether `nick` matches the pattern.
    pub fn matches(&self, nick: &Nickname) -> (r: bool)
        ensures
            r == wildcard_matches(self@, nick@),
    {
        self.0.matches(nick.value().as_str())
    }
}

/// An IP address: IPv4 as a 32-bit number, IPv6 as a 128-bit number, in
/// network byte order.
#[derive(Clone, Copy, Debug, PartialEq, Eq, Structural)]
pub enum IpAddress {
    V4(u32),
    V6(u128),
}

/// The network mask of an IPv4 prefix of `p` bits: its top `p` bits set.
pub open spec fn v4_netmask(p: u8) -> u32 {
    if p == 0 { 0u32 } else { 0xffff_ffffu32 << ((32 - p) as u32) }
}

/// The host mask of an IPv4 prefix of `p` bits: all but its top `p` bits set.
pub open spec fn v4_hostmask(p: u8) -> u32 {
    if p >= 32 { 0u32 } else { 0xffff_ffffu32 >> (p as u32) }
}

/// The network mask of an IPv6 prefix of `p` bits: its top `p` bits set.
pub open spec fn v6_netmask(p: u8) -> u128 {
    if p == 0 { 0u128 } else { 0xffff_ffff_ffff_ffff_ffff_ffff_ffff_ffffu128 << ((128 - p) as u32) }
}

/// The host mask of an IPv6 prefix of `p` bits: all but its top `p` bits set.
pub open spec fn v6_hostmask(p: u8) -> u128 {
    if p >= 128 { 0u128 } else { 0xffff_ffff_ffff_ffff_ffff_ffff_ffff_ffffu128 >> (p as u32) }
}

/// Calls ipnet's `Ipv4Net::contains` on the network of address `net` and
/// prefix length `prefix_len`, and on the one-address network (prefix length
/// 32) of `addr`. As ipnet's source shows, the result is whether `addr` lies
/// between the network's first address (`net` under the netmask) and its
/// last (`net` with the host bits set).
#[verifier::external_body]
fn ipv4_net_contains(net: u32, prefix_len: u8, addr: u32) -> (r: bool)
    requires
        prefix_len <= 32,
    ensures
        r == ((net & v4_netmask(prefix_len)) <= addr && addr <= (net | v4_hostmask(prefix_len))),
{
    match (ipnet::Ipv4Net::new(net.into(), prefix_len), ipnet::Ipv4Net::new(addr.into(), 32)) {
        (Ok(n), Ok(a)) => n.contains(&a),
        _ => false,
    }
}

/// Calls ipnet's `Ipv6Net::contains` on the network of address `net` and
/// prefix length `prefix_len`, and on the one-address network (prefix length
/// 128) of `addr`. As ipnet's source shows, the result is whether `addr`
/// lies between the network's first address (`net` under the netmask) and
/// its last (`net` with the host bits set).
#[verifier::external_body]
fn ipv6_net_contains(net: u128, prefix_len: u8, addr: u128) -> (r: bool)
    requires
        prefix_len <= 128,
    ensures
        r == ((net & v6_netmask(prefix_len)) <= addr && addr <= (net | v6_hostmask(prefix_len))),
{
    match (ipnet::Ipv6Net::new(net.into(), prefix_len), ipnet::Ipv6Net::new(addr.into(), 128)) {
        (Ok(n), Ok(a)) => n.contains(&a),
        _ => false,
    }
}

/// The longest prefix an address of this family has.
pub open spec fn max_prefix(a: IpAddress) -> u8 {
    match a {
        IpAddress::V4(_) => 32,
        IpAddress::V6(_) => 128,
    }
}

/// Whether the network of address `net` and prefix length `p` holds
/// `addr`: an address of the same family between the network's first and
/// last addresses.
pub open spec fn net_contains(net: IpAddress, p: u8, addr: IpAddress) -> bool {
    match (net, addr) {
        (IpAddress::V4(n), IpAddress::V4(x)) => (n & v4_netmask(p)) <= x && x <= (n | v4_hostmask(p)),
        (IpAddress::V6(n), IpAddress::V6(x)) => (n & v6_netmask(p)) <= x && x <= (n | v6_hostmask(p)),
        _ => false,
    }
}

/// An IP network: an address and a prefix length no longer than the
/// address family allows.
#[derive(Clone, Copy, Debug)]
pub struct IpNetwork {
    addr: IpAddress,
    prefix_len: u8,
}

impl View for IpNetwork {
    type V = (IpAddress, u8);

    closed spec fn view(&self) -> (IpAddress, u8) {
        (self.addr, self.prefix_len)
    }
}

impl IpNetwork {
    #[verifier::type_invariant]
    closed spec fn valid_prefix(&self) -> bool {
        self.prefix_len <= max_prefix(self.addr)
    }

    /// The network of address `addr` and prefix length `prefix_len`;
    /// `None` when the prefix is longer than the address family allows.
    pub fn new(addr: IpAddress, prefix_len: u8) -> (r: Option<IpNetwork>)
        ensures
            match r {
                Some(n) => prefix_len <= max_prefix(addr) && n@ == (addr, prefix_len),
                None => prefix_len > max_prefix(addr),
            },
    {
        let max: u8 = match addr {
            IpAddress::V4(_) => 32,
            IpAddress::V6(_) => 128,
        };
        if prefix_len <= max {
            Some(IpNetwork { addr, prefix_len })
        } else {
            None
        }
    }

    /// The network's address.
    pub fn addr(&self) -> (r: IpAddress)
        ensures
            r == self@.0,
    {
        self.addr
    }

    /// The network's prefix length.
    pub fn prefix_len(&self) -> (r: u8)
        ensures
            r == self@.1,
            r <= max_prefix(self@.0),
    {
        proof {
            use_type_invariant(self);
        }
        self.prefix_len
    }

    /// Whether the network holds `addr`; never for an address of the other family.
    pub fn contains(&self, addr: &IpAddress) -> (r: bool)
        ensures
            r == net_contains(self@.0, self@.1, *addr),
    {
        proof {
            use_type_invariant(self);
        }
        match (self.addr, *addr) {
            (IpAddress::V4(n), IpAddress::V4(x)) => ipv4_net_contains(n, self.prefix_len, x),
            (IpAddress::V6(n), IpAddress::V6(x)) => ipv6_net_contains(n, self.prefix_len, x),
            _ => false,
        }
    }
}

/// Matches a host by its name, against a pattern, or by its address,
/// against a network.
#[derive(Debug)]
pub enum HostMatcher {
    Hostname(Pattern),
    Ip(IpNetwork),
}

/// Whether the matcher `m` takes the host named `hostname` at `addr`.
pub open spec fn host_matches(m: HostMatcher, hostname: Seq<char>, addr: IpAddress) -> bool {
    match m {
        HostMatcher::Hostname(p) => wildcard_matches(p@, hostname),
        HostMatcher::Ip(n) => net_contains(n@.0, n@.1, addr),
    }
}

impl HostMatcher {
    /// Whether this matches by host name.
    pub fn is_host(&self) -> (r: bool)
        ensures
            r == (*self is Hostname),
    {
        match self {
            HostMatcher::Hostname(_) => true,
            _ => false,
        }
    }

    /// Whether this matches by address.
    pub fn is_ip(&self) -> (r: bool)
        ensures
            r == (*self is Ip),
    {
        match self {
            HostMatcher::Ip(_) => true,
            _ => false,
        }
    }

    /// Whether `hostname` matches; never for a matcher by address.
    pub fn matches_host(&self, hostname: &str) -> (r: bool)
        ensures
            r == match *self {
                HostMatcher::Hostname(p) => wildcard_matches(p@, hostname@),
                HostMatcher::Ip(_) => false,
            },
    {
        match self {
            HostMatcher::Hostname(pat) => pat.matches(hostname),
            _ => false,
        }
    }

    /// Whether `addr` matches; never for a matcher by name.
    pub fn matches_ip(&self, addr: &IpAddress) -> (r: bool)
        ensures
            r == match *self {
                HostMatcher::Ip(n) => net_contains(n@.0, n@.1, *addr),
                HostMatcher::Hostname(_) => false,
            },
    {
        match self {
            HostMatcher::Ip(mask) => mask.contains(addr),
            _ => false,
        }
    }

    /// Whether the host named `hostname` at `addr` matches: by its name or
    /// by its address, as this matcher goes.
    pub fn matches(&self, hostname: &str, addr: &IpAddress) -> (r: bool)
        ensures
            r == host_matches(*self, hostname@, *addr),
    {
        match self {
            HostMatcher::Hostname(pat) => pat.matches(hostname),
            HostMatcher::Ip(mask) => mask.contains(addr),
        }
    }
}

/// Matches a user name against a pattern and its host against a host matcher.
#[derive(Debug)]
pub struct UserHostMatcher {
    user: Pattern,
    host: HostMatcher,
}

impl UserHostMatcher {
    /// A matcher for users named like `user` on hosts that `host` takes.
    pub fn new(user: Pattern, host: HostMatcher) -> (r: UserHostMatcher)
        ensures
            r.user_pattern() == user@,
            r.host_matcher() == host,
    {
        UserHostMatcher { user, host }
    }

    /// The pattern for user names.
    pub closed spec fn user_pattern(&self) -> Seq<char> {
        self.user@
    }

    /// The matcher for hosts.
    pub closed spec fn host_matcher(&self) -> HostMatcher {
        self.host
    }

    /// Whether user `username` on the host named `hostname` at `addr`
    /// matches: both the user name and the host must.
    pub fn matches(&self, username: &str, hostname: &str, addr: &IpAddress) -> (r: bool)
        ensures
            r == (wildcard_matches(self.user_pattern(), username@) && host_matches(self.host_matcher(), hostname@, *addr)),
    {
        self.user.matches(username) && self.host.matches(hostname, addr)
    }
}

/// Matches the addresses of a network.
#[derive(Debug)]
pub struct IpMatcher(IpNetwork);

impl IpMatcher {
    /// A matcher for the addresses of `net`.
    pub fn new(net: IpNetwork) -> (r: IpMatcher)
        ensures
            r.network() == net@,
    {
        IpMatcher(net)
    }

    /// The network matched.
    pub closed spec fn network(&self) -> (IpAddress, u8) {
        self.0@
    }

    /// Whether `addr` lies in the network.
    pub fn matches(&self, addr: &IpAddress) -> (r: bool)
        ensures
            r == net_contains(self.network().0, self.network().1, *addr),
    {
        self.0.contains(addr)
    }
}

/// Matches one address.
#[derive(Debug)]
pub struct ExactIpMatcher(IpAddress);

impl ExactIpMatcher {
    /// A matcher for `addr` alone.
    pub fn new(addr: IpAddress) -> (r: ExactIpMatcher)
        ensures
            r.address() == addr,
    {
        ExactIpMatcher(addr)
    }

    /// The address matched.
    pub closed spec fn address(&self) -> IpAddress {
        self.0
    }

    /// Whether `addr` is the address matched.
    pub fn matches(&self, addr: &IpAddress) -> (r: bool)
        ensures
            r == (*addr == self.address()),
    {
        self.0 == *addr
    }
}

} // verus!
