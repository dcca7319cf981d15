use sable_network::types::{ExactIpMatcher, HostMatcher, IpAddress, IpMatcher, IpNetwork, Pattern, UserHostMatcher};

fn v4(a: u8, b: u8, c: u8, d: u8) -> IpAddress {
    IpAddress::V4(u32::from_be_bytes([a, b, c, d]))
}

fn v6(segments: [u16; 8]) -> IpAddress {
    let mut x: u128 = 0;
    for s in segments {
        x = (x << 16) | s as u128;
    }
    IpAddress::V6(x)
}

fn net(addr: IpAddress, prefix: u8) -> IpNetwork {
    IpNetwork::new(addr, prefix).unwrap()
}

#[test]
fn prefixes_longer_than_the_family_are_refused() {
    assert!(IpNetwork::new(v4(10, 0, 0, 0), 33).is_none());
    assert!(IpNetwork::new(v6([0; 8]), 129).is_none());
    let n = net(v6([0; 8]), 128);
    assert_eq!(n.prefix_len(), 128);
    assert_eq!(n.addr(), v6([0; 8]));
}

#[test]
fn an_ipv4_network_holds_the_addresses_under_its_prefix() {
    let n = net(v4(10, 20, 30, 40), 8);
    assert!(n.contains(&v4(10, 1, 2, 3)));
    assert!(n.contains(&v4(10, 255, 255, 255)));
    assert!(!n.contains(&v4(11, 0, 0, 1)));
    assert!(!n.contains(&v4(9, 255, 255, 255)));
    assert!(net(v4(0, 0, 0, 0), 0).contains(&v4(203, 0, 113, 9)));
    let host = net(v4(192, 168, 1, 7), 32);
    assert!(host.contains(&v4(192, 168, 1, 7)));
    assert!(!host.contains(&v4(192, 168, 1, 8)));
}

#[test]
fn an_ipv6_network_holds_the_addresses_under_its_prefix() {
    let n = net(v6([0xfd00, 0, 0, 0, 0, 0, 0, 0]), 8);
    assert!(n.contains(&v6([0xfd12, 0, 0, 0, 0, 0, 0, 1])));
    assert!(!n.contains(&v6([0xfe80, 0, 0, 0, 0, 0, 0, 1])));
    assert!(net(v6([0; 8]), 0).contains(&v6([0x2001, 0xdb8, 0, 0, 0, 0, 0, 1])));
}

#[test]
fn networks_never_hold_addresses_of_the_other_family() {
    assert!(!net(v4(0, 0, 0, 0), 0).contains(&v6([0; 8])));
    assert!(!net(v6([0; 8]), 0).contains(&v4(0, 0, 0, 0)));
}

#[test]
fn host_matchers_match_by_name_or_by_address() {
    let by_name = HostMatcher::Hostname(Pattern::new("*.example.org".to_string()));
    assert!(by_name.is_host());
    assert!(!by_name.is_ip());
    assert!(by_name.matches_host("irc.EXAMPLE.org"));
    assert!(!by_name.matches_ip(&v4(10, 0, 0, 1)));
    assert!(by_name.matches("irc.example.org", &v4(1, 2, 3, 4)));
    assert!(!by_name.matches("irc.example.com", &v4(1, 2, 3, 4)));

    let by_addr = HostMatcher::Ip(net(v4(10, 0, 0, 0), 8));
    assert!(by_addr.is_ip());
    assert!(!by_addr.matches_host("anything"));
    assert!(by_addr.matches_ip(&v4(10, 9, 9, 9)));
    assert!(by_addr.matches("irc.example.org", &v4(10, 9, 9, 9)));
    assert!(!by_addr.matches("irc.example.org", &v4(172, 16, 0, 1)));
}

#[test]
fn user_host_matchers_need_both_to_match() {
    let m = UserHostMatcher::new(Pattern::new("bob*".to_string()), HostMatcher::Ip(net(v4(10, 0, 0, 0), 8)));
    assert!(m.matches("bobby", "h", &v4(10, 1, 1, 1)));
    assert!(!m.matches("alice", "h", &v4(10, 1, 1, 1)));
    assert!(!m.matches("bobby", "h", &v4(11, 1, 1, 1)));
}

#[test]
fn ip_matchers_match_networks_and_single_addresses() {
    let m = IpMatcher::new(net(v4(172, 16, 0, 0), 12));
    assert!(m.matches(&v4(172, 31, 255, 255)));
    assert!(!m.matches(&v4(172, 32, 0, 0)));
    let e = ExactIpMatcher::new(v4(127, 0, 0, 1));
    assert!(e.matches(&v4(127, 0, 0, 1)));
    assert!(!e.matches(&v4(127, 0, 0, 2)));
}
