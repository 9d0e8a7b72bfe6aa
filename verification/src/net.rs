//! IP addresses and CIDR networks as plain integers, with their text forms.

use vstd::prelude::*;

use crate::text::{dec_string, dec_text, push_char};

verus! {

/// An IPv4 address (as its 32-bit value) or an IPv6 address (as its 128-bit value).
#[derive(Debug, Clone, Copy, PartialEq, Eq, Structural)]
pub enum IpAddress {
    V4(u32),
    V6(u128),
}

/// The netmask of an IPv4 network with `prefix` leading one bits.
pub open spec fn mask4(prefix: u8) -> u32 {
    if prefix == 0 {
        0
    } else {
        u32::MAX << ((32 - prefix) as u32)
    }
}

/// The netmask of an IPv6 network with `prefix` leading one bits.
pub open spec fn mask6(prefix: u8) -> u128 {
    if prefix == 0 {
        0
    } else {
        u128::MAX << ((128 - prefix) as u128)
    }
}

/// `ip` lies in the IPv4 network `addr/prefix`: it agrees with `addr` on the first `prefix` bits.
pub open spec fn in_net4(addr: u32, prefix: u8, ip: u32) -> bool {
    ip & mask4(prefix) == addr & mask4(prefix)
}

/// `ip` lies in the IPv6 network `addr/prefix`: it agrees with `addr` on the first `prefix` bits.
pub open spec fn in_net6(addr: u128, prefix: u8, ip: u128) -> bool {
    ip & mask6(prefix) == addr & mask6(prefix)
}

/// An IPv4 network: an address and a prefix length of at most 32.
#[derive(Debug, Clone, Copy, PartialEq, Eq, Structural)]
pub struct Ipv4Net {
    addr: u32,
    prefix: u8,
}

/// An IPv6 network: an address and a prefix length of at most 128.
#[derive(Debug, Clone, Copy, PartialEq, Eq, Structural)]
pub struct Ipv6Net {
    addr: u128,
    prefix: u8,
}

/// An IPv4 or IPv6 network.
#[derive(Debug, Clone, Copy, PartialEq, Eq, Structural)]
pub enum IpNet {
    V4(Ipv4Net),
    V6(Ipv6Net),
}

fn mask4_exec(prefix: u8) -> (m: u32)
    requires
        prefix <= 32,
    ensures
        m == mask4(prefix),
{
    if prefix == 0 {
        0
    } else {
        u32::MAX << (32 - prefix)
    }
}

fn mask6_exec(prefix: u8) -> (m: u128)
    requires
        prefix <= 128,
    ensures
        m == mask6(prefix),
{
    if prefix == 0 {
        0
    } else {
        u128::MAX << (128 - prefix)
    }
}

impl Ipv4Net {
    #[verifier::type_invariant]
    spec fn prefix_in_range(self) -> bool {
        self.prefix <= 32
    }

    /// The network's address.
    pub closed spec fn spec_addr(self) -> u32 {
        self.addr
    }

    /// The network's prefix length.
    pub closed spec fn spec_prefix(self) -> u8 {
        self.prefix
    }

    /// The network `addr/prefix`; `None` when `prefix` exceeds 32.
    pub fn new(addr: u32, prefix: u8) -> (r: Option<Ipv4Net>)
        ensures
            r is Some <==> prefix <= 32,
            r matches Some(n) ==> n.spec_addr() == addr && n.spec_prefix() == prefix,
    {
        if prefix > 32 {
            None
        } else {
            Some(Ipv4Net { addr, prefix })
        }
    }

    /// The address the network was built with.
    pub fn ip(&self) -> (a: u32)
        ensures
            a == self.spec_addr(),
    {
        self.addr
    }

    /// The prefix length.
    pub fn prefix(&self) -> (p: u8)
        ensures
            p == self.spec_prefix(),
            p <= 32,
    {
        proof {
            use_type_invariant(self);
        }
        self.prefix
    }

    /// Whether `ip` lies in this network.
    pub fn contains(&self, ip: u32) -> (r: bool)
        ensures
            r == in_net4(self.spec_addr(), self.spec_prefix(), ip),
    {
        proof {
            use_type_invariant(self);
        }
        let m = mask4_exec(self.prefix);
        (ip & m) == (self.addr & m)
    }
}

impl Ipv6Net {
    #[verifier::type_invariant]
    spec fn prefix_in_range(self) -> bool {
        self.prefix <= 128
    }

    /// The network's address.
    pub closed spec fn spec_addr(self) -> u128 {
        self.addr
    }

    /// The network's prefix length.
    pub closed spec fn spec_prefix(self) -> u8 {
        self.prefix
    }

    /// The network `addr/prefix`; `None` when `prefix` exceeds 128.
    pub fn new(addr: u128, prefix: u8) -> (r: Option<Ipv6Net>)
        ensures
            r is Some <==> prefix <= 128,
            r matches Some(n) ==> n.spec_addr() == addr && n.spec_prefix() == prefix,
    {
        if prefix > 128 {
            None
        } else {
            Some(Ipv6Net { addr, prefix })
        }
    }

    /// The address the network was built with.
    pub fn ip(&self) -> (a: u128)
        ensures
            a == self.spec_addr(),
    {
        self.addr
    }

    /// The prefix length.
    pub fn prefix(&self) -> (p: u8)
        ensures
            p == self.spec_prefix(),
            p <= 128,
    {
        proof {
            use_type_invariant(self);
        }
        self.prefix
    }

    /// Whether `ip` lies in this network.
    pub fn contains(&self, ip: u128) -> (r: bool)
        ensures
            r == in_net6(self.spec_addr(), self.spec_prefix(), ip),
    {
        proof {
            use_type_invariant(self);
        }
        let m = mask6_exec(self.prefix);
        (ip & m) == (self.addr & m)
    }
}

/// Every address lies in a network of prefix length 0.
pub proof fn lemma_prefix_zero_contains_all(addr4: u32, ip4: u32, addr6: u128, ip6: u128)
    ensures
        in_net4(addr4, 0, ip4),
        in_net6(addr6, 0, ip6),
{
    assert(ip4 & 0u32 == addr4 & 0u32) by (bit_vector);
    assert(ip6 & 0u128 == addr6 & 0u128) by (bit_vector);
}

/// A network of full prefix length holds exactly its own address.
pub proof fn lemma_full_prefix_is_exact(addr4: u32, ip4: u32, addr6: u128, ip6: u128)
    ensures
        in_net4(addr4, 32, ip4) <==> ip4 == addr4,
        in_net6(addr6, 128, ip6) <==> ip6 == addr6,
{
    assert(u32::MAX << 0u32 == 0xffff_ffffu32) by (bit_vector);
    assert(ip4 & 0xffff_ffffu32 == ip4 && addr4 & 0xffff_ffffu32 == addr4) by (bit_vector);
    assert(u128::MAX << 0u128 == 0xffff_ffff_ffff_ffff_ffff_ffff_ffff_ffffu128) by (bit_vector);
    assert(ip6 & 0xffff_ffff_ffff_ffff_ffff_ffff_ffff_ffffu128 == ip6
        && addr6 & 0xffff_ffff_ffff_ffff_ffff_ffff_ffff_ffffu128 == addr6) by (bit_vector);
}

/// Dotted-quad text of an IPv4 address, as `Ipv4Addr`'s `Display` writes it.
pub open spec fn ipv4_text(a: u32) -> Seq<char> {
    dec_text((a / 0x100_0000) as nat) + "."@ + dec_text(((a / 0x1_0000) % 256) as nat) + "."@
        + dec_text(((a / 0x100) % 256) as nat) + "."@ + dec_text((a % 256) as nat)
}

/// What `Ipv6Addr`'s `Display` writes for the address with value `a` (RFC 5952 form).
pub uninterp spec fn ipv6_text(a: u128) -> Seq<char>;

/// Text of an address.
pub open spec fn ip_text(ip: IpAddress) -> Seq<char> {
    match ip {
        IpAddress::V4(a) => ipv4_text(a),
        IpAddress::V6(a) => ipv6_text(a),
    }
}

/// The text of the address with value `a`, as `Ipv6Addr`'s `Display` writes it
/// (reached through `ipnetwork::Ipv6Network::ip`); the contract names it `ipv6_text(a)`.
#[verifier::external_body]
fn ipv6_display(a: u128) -> (r: String)
    ensures
        r@ == ipv6_text(a),
{
    match ipnetwork::Ipv6Network::new(a.into(), 128) {
        Ok(n) => n.ip().to_string(),
        Err(e) => e.to_string(),
    }
}

/// Dotted-quad text of an IPv4 address.
pub fn ipv4_string(a: u32) -> (r: String)
    ensures
        r@ == ipv4_text(a),
{
    let mut r = dec_string(a / 0x100_0000);
    push_char(&mut r, '.');
    let b = dec_string((a / 0x1_0000) % 256);
    r.append(b.as_str());
    push_char(&mut r, '.');
    let c = dec_string((a / 0x100) % 256);
    r.append(c.as_str());
    push_char(&mut r, '.');
    let d = dec_string(a % 256);
    r.append(d.as_str());
    proof {
        reveal_strlit(".");
    }
    assert(r@ =~= ipv4_text(a));
    r
}

/// Text of an address.
pub fn ip_string(ip: IpAddress) -> (r: String)
    ensures
        r@ == ip_text(ip),
{
    match ip {
        IpAddress::V4(a) => ipv4_string(a),
        IpAddress::V6(a) => ipv6_display(a),
    }
}

/// `addr/prefix` text of an IPv4 network, as `ipnetwork` writes it.
pub open spec fn net4_text(addr: u32, prefix: u8) -> Seq<char> {
    ipv4_text(addr) + "/"@ + dec_text(prefix as nat)
}

/// `addr/prefix` text of an IPv6 network, as `ipnetwork` writes it.
pub open spec fn net6_text(addr: u128, prefix: u8) -> Seq<char> {
    ipv6_text(addr) + "/"@ + dec_text(prefix as nat)
}

/// `addr/prefix` text of an IPv4 network.
pub fn net4_string(n: &Ipv4Net) -> (r: String)
    ensures
        r@ == net4_text(n.spec_addr(), n.spec_prefix()),
{
    let mut r = ipv4_string(n.ip());
    r.append("/");
    let p = dec_string(n.prefix() as u32);
    r.append(p.as_str());
    r
}

/// `addr/prefix` text of an IPv6 network.
pub fn net6_string(n: &Ipv6Net) -> (r: String)
    ensures
        r@ == net6_text(n.spec_addr(), n.spec_prefix()),
{
    let mut r = ipv6_display(n.ip());
    r.append("/");
    let p = dec_string(n.prefix() as u32);
    r.append(p.as_str());
    r
}

/// The mathematical content of an `ipnetwork::IpNetworkError`.
pub enum NetErrView {
    InvalidAddr(Seq<char>),
    InvalidPrefix,
    InvalidCidrFormat(Seq<char>),
    NetworkSize(Seq<char>),
    Other(Seq<char>),
}

/// An `ipnetwork::IpNetworkError`, its fields as text.
#[derive(Debug, Clone)]
pub enum NetParseError {
    /// The address part did not parse; the text of std's `AddrParseError`.
    InvalidAddr(String),
    /// The prefix did not parse or is too long.
    InvalidPrefix,
    /// More than one `/`.
    InvalidCidrFormat(String),
    /// A network-size error, as text.
    NetworkSize(String),
    /// A kind added to the non-exhaustive error in a later version, as its `Display` text.
    Other(String),
}

impl View for NetParseError {
    type V = NetErrView;

    open spec fn view(&self) -> NetErrView {
        match self {
            NetParseError::InvalidAddr(s) => NetErrView::InvalidAddr(s@),
            NetParseError::InvalidPrefix => NetErrView::InvalidPrefix,
            NetParseError::InvalidCidrFormat(s) => NetErrView::InvalidCidrFormat(s@),
            NetParseError::NetworkSize(s) => NetErrView::NetworkSize(s@),
            NetParseError::Other(s) => NetErrView::Other(s@),
        }
    }
}

/// The text that `IpNetworkError`'s `Display` writes.
pub open spec fn net_error_text(e: NetErrView) -> Seq<char> {
    match e {
        NetErrView::InvalidAddr(s) => "invalid address: "@ + s,
        NetErrView::InvalidPrefix => "invalid prefix"@,
        NetErrView::InvalidCidrFormat(s) => "invalid cidr format: "@ + s,
        NetErrView::NetworkSize(s) => "network size error: "@ + s,
        NetErrView::Other(s) => s,
    }
}

impl NetParseError {
    /// The error's text, as `IpNetworkError`'s `Display` writes it.
    pub fn message(&self) -> (r: String)
        ensures
            r@ == net_error_text(self@),
    {
        match self {
            NetParseError::InvalidAddr(s) => crate::text::concat2("invalid address: ", s.as_str()),
            NetParseError::InvalidPrefix => String::from_str("invalid prefix"),
            NetParseError::InvalidCidrFormat(s) => crate::text::concat2("invalid cidr format: ", s.as_str()),
            NetParseError::NetworkSize(s) => crate::text::concat2("network size error: ", s.as_str()),
            NetParseError::Other(s) => String::from_str(s.as_str()),
        }
    }
}

/// What `ipnetwork`'s `Ipv4Network::from_str` gives for `s`: address and prefix, or the error.
pub uninterp spec fn ipv4_network_parse(s: Seq<char>) -> Result<(u32, u8), NetErrView>;

/// What `ipnetwork`'s `Ipv6Network::from_str` gives for `s`: address and prefix, or the error.
pub uninterp spec fn ipv6_network_parse(s: Seq<char>) -> Result<(u128, u8), NetErrView>;

/// `ipnetwork::Ipv4Network::from_str`, as address and prefix, the error by kind;
/// the contract names the result `ipv4_network_parse(s@)`. As the source shows:
/// the network is built with `Ipv4Network::new`, which refuses a prefix above 32;
/// a text without `/` is parsed by `Ipv4Addr::from_str` alone, with prefix 32,
/// its error becoming `InvalidAddr` with the text of the `AddrParseError`.
#[verifier::external_body]
pub(crate) fn parse_ipv4_network(s: &str) -> (r: Result<(u32, u8), NetParseError>)
    ensures
        r matches Ok(v) ==> (ipv4_network_parse(s@) matches Ok(w) && w == v && v.1 <= 32),
        r matches Err(e) ==> (ipv4_network_parse(s@) matches Err(m) && m == e@),
        !s@.contains('/') ==> (r matches Ok(v) ==> v.1 == 32),
        !s@.contains('/') ==> (r matches Err(e) ==> e is InvalidAddr),
{
    match s.parse::<ipnetwork::Ipv4Network>() {
        Ok(n) => Ok((u32::from(n.ip()), n.prefix())),
        Err(ipnetwork::IpNetworkError::InvalidAddr(m)) => Err(NetParseError::InvalidAddr(m)),
        Err(ipnetwork::IpNetworkError::InvalidPrefix) => Err(NetParseError::InvalidPrefix),
        Err(ipnetwork::IpNetworkError::InvalidCidrFormat(m)) => Err(NetParseError::InvalidCidrFormat(m)),
        Err(ipnetwork::IpNetworkError::NetworkSizeError(e)) => Err(NetParseError::NetworkSize(e.to_string())),
        Err(e) => Err(NetParseError::Other(e.to_string())),
    }
}

/// `ipnetwork::Ipv6Network::from_str`, as address and prefix, the error by kind;
/// the contract names the result `ipv6_network_parse(s@)`. As the source shows:
/// the network is built with `Ipv6Network::new`, which refuses a prefix above 128;
/// a text without `/` is parsed by `Ipv6Addr::from_str` alone, with prefix 128,
/// its error becoming `InvalidAddr` with the text of the `AddrParseError`.
#[verifier::external_body]
pub(crate) fn parse_ipv6_network(s: &str) -> (r: Result<(u128, u8), NetParseError>)
    ensures
        r matches Ok(v) ==> (ipv6_network_parse(s@) matches Ok(w) && w == v && v.1 <= 128),
        r matches Err(e) ==> (ipv6_network_parse(s@) matches Err(m) && m == e@),
        !s@.contains('/') ==> (r matches Ok(v) ==> v.1 == 128),
        !s@.contains('/') ==> (r matches Err(e) ==> e is InvalidAddr),
{
    match s.parse::<ipnetwork::Ipv6Network>() {
        Ok(n) => Ok((u128::from(n.ip()), n.prefix())),
        Err(ipnetwork::IpNetworkError::InvalidAddr(m)) => Err(NetParseError::InvalidAddr(m)),
        Err(ipnetwork::IpNetworkError::InvalidPrefix) => Err(NetParseError::InvalidPrefix),
        Err(ipnetwork::IpNetworkError::InvalidCidrFormat(m)) => Err(NetParseError::InvalidCidrFormat(m)),
        Err(ipnetwork::IpNetworkError::NetworkSizeError(e)) => Err(NetParseError::NetworkSize(e.to_string())),
        Err(e) => Err(NetParseError::Other(e.to_string())),
    }
}

} // verus!
