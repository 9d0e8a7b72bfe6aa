use spfquery::matcher::{ip_in_ipv4_network, ip_in_network, ip_in_resolved_ips};
use spfquery::net::{IpAddress, IpNet, Ipv4Net, Ipv6Net};

fn net(text: &str) -> IpNet {
    let n: ipnetwork::IpNetwork = text.parse().unwrap();
    match n {
        ipnetwork::IpNetwork::V4(n) => IpNet::V4(Ipv4Net::new(u32::from(n.ip()), n.prefix()).unwrap()),
        ipnetwork::IpNetwork::V6(n) => IpNet::V6(Ipv6Net::new(u128::from(n.ip()), n.prefix()).unwrap()),
    }
}

fn v4(a: u8, b: u8, c: u8, d: u8) -> IpAddress {
    IpAddress::V4(u32::from_be_bytes([a, b, c, d]))
}

fn v6(segments: [u16; 8]) -> IpAddress {
    let mut v: u128 = 0;
    for s in segments {
        v = (v << 16) | s as u128;
    }
    IpAddress::V6(v)
}

#[test]
fn test_ip_in_network_v4() {
    let net = net("192.168.1.0/24");
    assert!(ip_in_network(v4(192, 168, 1, 100), &net));
    assert!(!ip_in_network(v4(192, 168, 2, 1), &net));
}

#[test]
fn test_ip_in_network_v6() {
    let net = net("2001:db8::/32");
    assert!(ip_in_network(v6([0x2001, 0xdb8, 0, 0, 0, 0, 0, 1]), &net));
    assert!(!ip_in_network(v6([0x2001, 0xdb9, 0, 0, 0, 0, 0, 1]), &net));
}

#[test]
fn test_ip_in_network_cross_family() {
    let net = net("192.168.1.0/24");
    assert!(!ip_in_network(v6([0x2001, 0xdb8, 0, 0, 0, 0, 0, 1]), &net));
}

#[test]
fn test_ip_in_resolved_ips_with_cidr() {
    let ips = vec![v4(10, 0, 0, 1), v4(192, 168, 1, 1)];
    assert!(ip_in_resolved_ips(v4(10, 1, 2, 3), &ips, Some(8), None));
    assert!(ip_in_resolved_ips(v4(192, 168, 1, 1), &ips, None, None));
    assert!(!ip_in_resolved_ips(v4(192, 168, 1, 2), &ips, None, None));
}

#[test]
fn test_ip_in_resolved_ips_v6() {
    let ips = vec![v6([0x2001, 0xdb8, 0, 0, 0, 0, 0, 1])];
    assert!(ip_in_resolved_ips(
        v6([0x2001, 0xdb8, 0, 0, 0, 0, 0, 42]),
        &ips,
        None,
        Some(64)
    ));
}

#[test]
fn test_cidr_zero() {
    let ips = vec![v4(0, 0, 0, 0)];
    assert!(ip_in_resolved_ips(v4(255, 255, 255, 255), &ips, Some(0), None));
}

// ---- further cases ----

#[test]
fn cidr_override_and_invalid_lengths() {
    let n = Ipv4Net::new(u32::from_be_bytes([10, 0, 0, 0]), 24).unwrap();
    assert!(!ip_in_ipv4_network(v4(10, 0, 1, 1), &n, None));
    assert!(ip_in_ipv4_network(v4(10, 0, 1, 1), &n, Some(16)));
    // an override above 32 is ignored
    assert!(!ip_in_ipv4_network(v4(10, 0, 1, 1), &n, Some(40)));
    assert!(Ipv4Net::new(0, 33).is_none());
    assert!(Ipv6Net::new(0, 129).is_none());
    // an invalid resolved-address length matches nothing
    assert!(!ip_in_resolved_ips(v4(10, 0, 0, 1), &[v4(10, 0, 0, 1)], Some(33), None));
}

#[test]
fn cross_family_resolved_never_matches() {
    let ips = vec![v6([0, 0, 0, 0, 0, 0, 0, 0])];
    assert!(!ip_in_resolved_ips(v4(1, 2, 3, 4), &ips, Some(0), Some(0)));
}

#[test]
fn full_prefix_is_exact() {
    let n = Ipv4Net::new(u32::from_be_bytes([1, 2, 3, 4]), 32).unwrap();
    assert!(n.contains(u32::from_be_bytes([1, 2, 3, 4])));
    assert!(!n.contains(u32::from_be_bytes([1, 2, 3, 5])));
}
