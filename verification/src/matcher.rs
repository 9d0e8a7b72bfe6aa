//! Whether an IP address lies in a network or near a resolved address.

use vstd::prelude::*;

use crate::net::{in_net4, in_net6, lemma_prefix_zero_contains_all, IpAddress, IpNet, Ipv4Net, Ipv6Net};

verus! {

/// `ip` lies in `network`; an address never lies in a network of the other family.
pub open spec fn net_contains(network: IpNet, ip: IpAddress) -> bool {
    match (ip, network) {
        (IpAddress::V4(a), IpNet::V4(n)) => in_net4(n.spec_addr(), n.spec_prefix(), a),
        (IpAddress::V6(a), IpNet::V6(n)) => in_net6(n.spec_addr(), n.spec_prefix(), a),
        _ => false,
    }
}

/// The prefix used when a CIDR length may override the network's own: the override
/// where it is a valid length for the family, else the network's prefix.
pub open spec fn effective_prefix(own: u8, cidr_override: Option<u8>, max: u8) -> u8 {
    match cidr_override {
        Some(c) => if c <= max { c } else { own },
        None => own,
    }
}

/// The two addresses belong to the same family.
pub open spec fn same_family(a: IpAddress, b: IpAddress) -> bool {
    (a is V4 && b is V4) || (a is V6 && b is V6)
}

/// `check` lies in the network made of the resolved address `resolved` and the
/// CIDR length of its family (32 or 128 when none is given); an invalid length matches nothing.
pub open spec fn resolved_match(check: IpAddress, resolved: IpAddress, cidr4: Option<u8>, cidr6: Option<u8>) -> bool {
    match (check, resolved) {
        (IpAddress::V4(t), IpAddress::V4(r)) => {
            let p = match cidr4 {
                Some(c) => c,
                None => 32u8,
            };
            p <= 32 && in_net4(r, p, t)
        },
        (IpAddress::V6(t), IpAddress::V6(r)) => {
            let p = match cidr6 {
                Some(c) => c,
                None => 128u8,
            };
            p <= 128 && in_net6(r, p, t)
        },
        _ => false,
    }
}

/// Some resolved address matches `check` under the CIDR lengths.
pub open spec fn any_resolved_match(check: IpAddress, ips: Seq<IpAddress>, cidr4: Option<u8>, cidr6: Option<u8>) -> bool {
    exists|i: int| 0 <= i < ips.len() && resolved_match(check, #[trigger] ips[i], cidr4, cidr6)
}

/// Whether `ip` lies in `network`.
pub fn ip_in_network(ip: IpAddress, network: &IpNet) -> (r: bool)
    ensures
        r == net_contains(*network, ip),
{
    match (ip, network) {
        (IpAddress::V4(a), IpNet::V4(n)) => n.contains(a),
        (IpAddress::V6(a), IpNet::V6(n)) => n.contains(a),
        _ => false,
    }
}

/// Whether `ip` lies in `network`, with the prefix replaced by `cidr_override` when that is at most 32.
pub fn ip_in_ipv4_network(ip: IpAddress, network: &Ipv4Net, cidr_override: Option<u8>) -> (r: bool)
    ensures
        r == match ip {
            IpAddress::V4(a) => in_net4(
                network.spec_addr(),
                effective_prefix(network.spec_prefix(), cidr_override, 32),
                a,
            ),
            IpAddress::V6(_) => false,
        },
{
    match ip {
        IpAddress::V4(ip4) => {
            if let Some(cidr) = cidr_override {
                if let Some(adjusted) = Ipv4Net::new(network.ip(), cidr) {
                    return adjusted.contains(ip4);
                }
            }
            network.contains(ip4)
        },
        IpAddress::V6(_) => false,
    }
}

/// Whether `ip` lies in `network`, with the prefix replaced by `cidr_override` when that is at most 128.
pub fn ip_in_ipv6_network(ip: IpAddress, network: &Ipv6Net, cidr_override: Option<u8>) -> (r: bool)
    ensures
        r == match ip {
            IpAddress::V6(a) => in_net6(
                network.spec_addr(),
                effective_prefix(network.spec_prefix(), cidr_override, 128),
                a,
            ),
            IpAddress::V4(_) => false,
        },
{
    match ip {
        IpAddress::V6(ip6) => {
            if let Some(cidr) = cidr_override {
                if let Some(adjusted) = Ipv6Net::new(network.ip(), cidr) {
                    return adjusted.contains(ip6);
                }
            }
            network.contains(ip6)
        },
        IpAddress::V4(_) => false,
    }
}

/// Whether `check_ip` lies near one of `resolved_ips`: in the network made of a
/// resolved address of its own family and that family's CIDR length (used by `a` and `mx`).
pub fn ip_in_resolved_ips(
    check_ip: IpAddress,
    resolved_ips: &[IpAddress],
    cidr4: Option<u8>,
    cidr6: Option<u8>,
) -> (r: bool)
    ensures
        r == any_resolved_match(check_ip, resolved_ips@, cidr4, cidr6),
{
    let mut i: usize = 0;
    while i < resolved_ips.len()
        invariant
            i <= resolved_ips@.len(),
            forall|j: int| 0 <= j < i ==> !resolved_match(check_ip, #[trigger] resolved_ips@[j], cidr4, cidr6),
        decreases resolved_ips.len() - i,
    {
        let ip = resolved_ips[i];
        match (check_ip, ip) {
            (IpAddress::V4(target), IpAddress::V4(resolved)) => {
                let prefix = match cidr4 {
                    Some(c) => c,
                    None => 32,
                };
                if let Some(network) = Ipv4Net::new(resolved, prefix) {
                    if network.contains(target) {
                        assert(resolved_match(check_ip, resolved_ips@[i as int], cidr4, cidr6));
                        return true;
                    }
                }
            },
            (IpAddress::V6(target), IpAddress::V6(resolved)) => {
                let prefix = match cidr6 {
                    Some(c) => c,
                    None => 128,
                };
                if let Some(network) = Ipv6Net::new(resolved, prefix) {
                    if network.contains(target) {
                        assert(resolved_match(check_ip, resolved_ips@[i as int], cidr4, cidr6));
                        return true;
                    }
                }
            },
            _ => {},
        }
        i = i + 1;
    }
    false
}

/// With CIDR length 0, any resolved address of the checked address's family matches.
pub proof fn lemma_zero_cidr_matches_family(check: IpAddress, ips: Seq<IpAddress>, i: int)
    requires
        0 <= i < ips.len(),
        same_family(check, ips[i]),
    ensures
        any_resolved_match(check, ips, Some(0u8), Some(0u8)),
{
    match (check, ips[i]) {
        (IpAddress::V4(t), IpAddress::V4(r)) => {
            lemma_prefix_zero_contains_all(r, t, 0, 0);
        },
        (IpAddress::V6(t), IpAddress::V6(r)) => {
            lemma_prefix_zero_contains_all(0, 0, r, t);
        },
        _ => {},
    }
    assert(resolved_match(check, ips[i], Some(0u8), Some(0u8)));
}

/// An address never matches resolved addresses of the other family only.
pub proof fn lemma_cross_family_never_matches(check: IpAddress, ips: Seq<IpAddress>, cidr4: Option<u8>, cidr6: Option<u8>)
    requires
        forall|i: int| 0 <= i < ips.len() ==> !same_family(check, #[trigger] ips[i]),
    ensures
        !any_resolved_match(check, ips, cidr4, cidr6),
{
    assert forall|i: int| 0 <= i < ips.len() implies !resolved_match(check, #[trigger] ips[i], cidr4, cidr6) by {
        assert(!same_family(check, ips[i]));
    }
}

} // verus!
