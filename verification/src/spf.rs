//! SPF record parsing: terms, qualifiers, mechanisms and modifiers.

use vstd::prelude::*;

use crate::error::{strings_view, ErrView, SpfError, SpfResult};
use crate::net::{
    ipv4_network_parse, ipv6_network_parse, net4_string, net4_text, net6_string, net6_text,
    net_error_text, parse_ipv4_network, parse_ipv6_network, Ipv4Net, Ipv6Net, NetErrView,
    NetParseError,
};
use crate::text::{
    char_len, concat2, contains_char_exec, dec_string, dec_text, find_exec, first_occurrence,
    last_index_of, lemma_first_occurrence, lemma_last_index, lowercase, occurs_at, parse_u8_exec,
    rfind_char_exec, slice, split_terms, starts_with, starts_with_exec, str_eq, strip_prefix,
    strip_prefix_exec, to_lower,
    trim_str, trimmed, u8_text_value, whitespace_terms,
};

verus! {

/// SPF qualifier: what a matching mechanism yields.
#[derive(Debug, Clone, Copy, PartialEq, Eq, Structural)]
pub enum Qualifier {
    Pass,
    Fail,
    SoftFail,
    Neutral,
}

/// The qualifier written with the character `c`, if any.
pub open spec fn qualifier_of(c: char) -> Option<Qualifier> {
    if c == '+' {
        Some(Qualifier::Pass)
    } else if c == '-' {
        Some(Qualifier::Fail)
    } else if c == '~' {
        Some(Qualifier::SoftFail)
    } else if c == '?' {
        Some(Qualifier::Neutral)
    } else {
        None
    }
}

/// The character that writes the qualifier `q`.
pub open spec fn symbol_of(q: Qualifier) -> char {
    match q {
        Qualifier::Pass => '+',
        Qualifier::Fail => '-',
        Qualifier::SoftFail => '~',
        Qualifier::Neutral => '?',
    }
}

impl Qualifier {
    /// The qualifier written with `c` (`+`, `-`, `~`, `?`).
    pub fn from_prefix(c: char) -> (r: Option<Qualifier>)
        ensures
            r == qualifier_of(c),
    {
        if c == '+' {
            Some(Qualifier::Pass)
        } else if c == '-' {
            Some(Qualifier::Fail)
        } else if c == '~' {
            Some(Qualifier::SoftFail)
        } else if c == '?' {
            Some(Qualifier::Neutral)
        } else {
            None
        }
    }

    /// The character that writes this qualifier.
    pub fn symbol(&self) -> (c: char)
        ensures
            c == symbol_of(*self),
    {
        match self {
            Qualifier::Pass => '+',
            Qualifier::Fail => '-',
            Qualifier::SoftFail => '~',
            Qualifier::Neutral => '?',
        }
    }
}

/// Writing a qualifier and reading it back gives the same qualifier.
pub proof fn lemma_qualifier_symbol_roundtrip(q: Qualifier)
    ensures
        qualifier_of(symbol_of(q)) == Some(q),
{
}

/// An SPF mechanism.
#[derive(Debug, Clone)]
pub enum Mechanism {
    All { qualifier: Qualifier },
    Include { qualifier: Qualifier, domain: String },
    A { qualifier: Qualifier, domain: Option<String>, cidr4: Option<u8>, cidr6: Option<u8> },
    Mx { qualifier: Qualifier, domain: Option<String>, cidr4: Option<u8>, cidr6: Option<u8> },
    Ip4 { qualifier: Qualifier, network: Ipv4Net },
    Ip6 { qualifier: Qualifier, network: Ipv6Net },
    Ptr { qualifier: Qualifier, domain: Option<String> },
    Exists { qualifier: Qualifier, domain: String },
}

/// The mathematical content of a [`Mechanism`]; networks as address and prefix.
pub enum MechView {
    All { qualifier: Qualifier },
    Include { qualifier: Qualifier, domain: Seq<char> },
    A { qualifier: Qualifier, domain: Option<Seq<char>>, cidr4: Option<u8>, cidr6: Option<u8> },
    Mx { qualifier: Qualifier, domain: Option<Seq<char>>, cidr4: Option<u8>, cidr6: Option<u8> },
    Ip4 { qualifier: Qualifier, addr: u32, prefix: u8 },
    Ip6 { qualifier: Qualifier, addr: u128, prefix: u8 },
    Ptr { qualifier: Qualifier, domain: Option<Seq<char>> },
    Exists { qualifier: Qualifier, domain: Seq<char> },
}

/// View of an optional string.
pub open spec fn opt_str(o: Option<String>) -> Option<Seq<char>> {
    match o {
        Some(s) => Some(s@),
        None => None,
    }
}

impl View for Mechanism {
    type V = MechView;

    open spec fn view(&self) -> MechView {
        match self {
            Mechanism::All { qualifier } => MechView::All { qualifier: *qualifier },
            Mechanism::Include { qualifier, domain } => MechView::Include {
                qualifier: *qualifier,
                domain: domain@,
            },
            Mechanism::A { qualifier, domain, cidr4, cidr6 } => MechView::A {
                qualifier: *qualifier,
                domain: opt_str(*domain),
                cidr4: *cidr4,
                cidr6: *cidr6,
            },
            Mechanism::Mx { qualifier, domain, cidr4, cidr6 } => MechView::Mx {
                qualifier: *qualifier,
                domain: opt_str(*domain),
                cidr4: *cidr4,
                cidr6: *cidr6,
            },
            Mechanism::Ip4 { qualifier, network } => MechView::Ip4 {
                qualifier: *qualifier,
                addr: network.spec_addr(),
                prefix: network.spec_prefix(),
            },
            Mechanism::Ip6 { qualifier, network } => MechView::Ip6 {
                qualifier: *qualifier,
                addr: network.spec_addr(),
                prefix: network.spec_prefix(),
            },
            Mechanism::Ptr { qualifier, domain } => MechView::Ptr {
                qualifier: *qualifier,
                domain: opt_str(*domain),
            },
            Mechanism::Exists { qualifier, domain } => MechView::Exists {
                qualifier: *qualifier,
                domain: domain@,
            },
        }
    }
}

/// The qualifier of a mechanism.
pub open spec fn mech_qualifier(m: MechView) -> Qualifier {
    match m {
        MechView::All { qualifier } => qualifier,
        MechView::Include { qualifier, .. } => qualifier,
        MechView::A { qualifier, .. } => qualifier,
        MechView::Mx { qualifier, .. } => qualifier,
        MechView::Ip4 { qualifier, .. } => qualifier,
        MechView::Ip6 { qualifier, .. } => qualifier,
        MechView::Ptr { qualifier, .. } => qualifier,
        MechView::Exists { qualifier, .. } => qualifier,
    }
}

/// The name of a mechanism's kind.
pub open spec fn mech_name(m: MechView) -> Seq<char> {
    match m {
        MechView::All { .. } => "all"@,
        MechView::Include { .. } => "include"@,
        MechView::A { .. } => "a"@,
        MechView::Mx { .. } => "mx"@,
        MechView::Ip4 { .. } => "ip4"@,
        MechView::Ip6 { .. } => "ip6"@,
        MechView::Ptr { .. } => "ptr"@,
        MechView::Exists { .. } => "exists"@,
    }
}

/// The qualifier as written in front of a mechanism: nothing for `Pass`.
pub open spec fn qualifier_prefix_text(q: Qualifier) -> Seq<char> {
    if q == Qualifier::Pass {
        Seq::empty()
    } else {
        seq![symbol_of(q)]
    }
}

/// `:domain`, or nothing.
pub open spec fn opt_domain_text(d: Option<Seq<char>>) -> Seq<char> {
    match d {
        Some(d) => ":"@ + d,
        None => Seq::empty(),
    }
}

/// `/cidr4` and `//cidr6`, each only where given.
pub open spec fn cidr_text(cidr4: Option<u8>, cidr6: Option<u8>) -> Seq<char> {
    (match cidr4 {
        Some(c) => "/"@ + dec_text(c as nat),
        None => Seq::empty(),
    }) + (match cidr6 {
        Some(c) => "//"@ + dec_text(c as nat),
        None => Seq::empty(),
    })
}

/// The text of a mechanism, as it is written in a record.
pub open spec fn mech_text(m: MechView) -> Seq<char> {
    let p = qualifier_prefix_text(mech_qualifier(m));
    match m {
        MechView::All { .. } => p + "all"@,
        MechView::Include { domain, .. } => p + "include:"@ + domain,
        MechView::A { domain, cidr4, cidr6, .. } => p + "a"@ + opt_domain_text(domain) + cidr_text(
            cidr4,
            cidr6,
        ),
        MechView::Mx { domain, cidr4, cidr6, .. } => p + "mx"@ + opt_domain_text(domain) + cidr_text(
            cidr4,
            cidr6,
        ),
        MechView::Ip4 { addr, prefix, .. } => p + "ip4:"@ + net4_text(addr, prefix),
        MechView::Ip6 { addr, prefix, .. } => p + "ip6:"@ + net6_text(addr, prefix),
        MechView::Ptr { domain, .. } => p + "ptr"@ + opt_domain_text(domain),
        MechView::Exists { domain, .. } => p + "exists:"@ + domain,
    }
}

fn append_opt_domain(out: &mut String, d: &Option<String>)
    ensures
        final(out)@ == old(out)@ + opt_domain_text(opt_str(*d)),
{
    match d {
        Some(d) => {
            out.append(":");
            out.append(d.as_str());
        },
        None => {},
    }
}

fn append_cidrs(out: &mut String, cidr4: Option<u8>, cidr6: Option<u8>)
    ensures
        final(out)@ == old(out)@ + cidr_text(cidr4, cidr6),
{
    let ghost start = out@;
    match cidr4 {
        Some(c) => {
            out.append("/");
            let t = dec_string(c as u32);
            out.append(t.as_str());
        },
        None => {},
    }
    match cidr6 {
        Some(c) => {
            out.append("//");
            let t = dec_string(c as u32);
            out.append(t.as_str());
        },
        None => {},
    }
    assert(out@ =~= start + cidr_text(cidr4, cidr6));
}

impl Mechanism {
    /// The mechanism's qualifier.
    pub fn qualifier(&self) -> (q: Qualifier)
        ensures
            q == mech_qualifier(self@),
    {
        match self {
            Mechanism::All { qualifier } => *qualifier,
            Mechanism::Include { qualifier, .. } => *qualifier,
            Mechanism::A { qualifier, .. } => *qualifier,
            Mechanism::Mx { qualifier, .. } => *qualifier,
            Mechanism::Ip4 { qualifier, .. } => *qualifier,
            Mechanism::Ip6 { qualifier, .. } => *qualifier,
            Mechanism::Ptr { qualifier, .. } => *qualifier,
            Mechanism::Exists { qualifier, .. } => *qualifier,
        }
    }

    /// The name of the mechanism's kind.
    pub fn name(&self) -> (r: &'static str)
        ensures
            r@ == mech_name(self@),
    {
        match self {
            Mechanism::All { .. } => "all",
            Mechanism::Include { .. } => "include",
            Mechanism::A { .. } => "a",
            Mechanism::Mx { .. } => "mx",
            Mechanism::Ip4 { .. } => "ip4",
            Mechanism::Ip6 { .. } => "ip6",
            Mechanism::Ptr { .. } => "ptr",
            Mechanism::Exists { .. } => "exists",
        }
    }

    /// The text of the mechanism, as it is written in a record.
    pub fn to_string(&self) -> (r: String)
        ensures
            r@ == mech_text(self@),
    {
        let q = self.qualifier();
        let mut out = String::new();
        if q != Qualifier::Pass {
            crate::text::push_char(&mut out, q.symbol());
        }
        let ghost p = out@;
        assert(p =~= qualifier_prefix_text(mech_qualifier(self@)));
        match self {
            Mechanism::All { .. } => {
                out.append("all");
            },
            Mechanism::Include { domain, .. } => {
                out.append("include:");
                out.append(domain.as_str());
            },
            Mechanism::A { domain, cidr4, cidr6, .. } => {
                out.append("a");
                append_opt_domain(&mut out, domain);
                append_cidrs(&mut out, *cidr4, *cidr6);
            },
            Mechanism::Mx { domain, cidr4, cidr6, .. } => {
                out.append("mx");
                append_opt_domain(&mut out, domain);
                append_cidrs(&mut out, *cidr4, *cidr6);
            },
            Mechanism::Ip4 { network, .. } => {
                out.append("ip4:");
                let t = net4_string(network);
                out.append(t.as_str());
            },
            Mechanism::Ip6 { network, .. } => {
                out.append("ip6:");
                let t = net6_string(network);
                out.append(t.as_str());
            },
            Mechanism::Ptr { domain, .. } => {
                out.append("ptr");
                append_opt_domain(&mut out, domain);
            },
            Mechanism::Exists { domain, .. } => {
                out.append("exists:");
                out.append(domain.as_str());
            },
        }
        assert(out@ =~= mech_text(self@));
        out
    }
}

} // verus!

verus! {

/// An SPF modifier.
#[derive(Debug, Clone)]
pub enum Modifier {
    Redirect { domain: String },
    Exp { domain: String },
}

/// The mathematical content of a [`Modifier`].
pub enum ModView {
    Redirect { domain: Seq<char> },
    Exp { domain: Seq<char> },
}

impl View for Modifier {
    type V = ModView;

    open spec fn view(&self) -> ModView {
        match self {
            Modifier::Redirect { domain } => ModView::Redirect { domain: domain@ },
            Modifier::Exp { domain } => ModView::Exp { domain: domain@ },
        }
    }
}

/// A parsed SPF record.
#[derive(Debug, Clone)]
pub struct SpfRecord {
    pub mechanisms: Vec<Mechanism>,
    pub modifiers: Vec<Modifier>,
    pub raw: String,
}

/// The mathematical content of an [`SpfRecord`].
pub struct RecordView {
    pub mechanisms: Seq<MechView>,
    pub modifiers: Seq<ModView>,
    pub raw: Seq<char>,
}

/// Views of mechanisms.
pub open spec fn mechs_view(s: Seq<Mechanism>) -> Seq<MechView> {
    s.map_values(|m: Mechanism| m@)
}

/// Views of modifiers.
pub open spec fn mods_view(s: Seq<Modifier>) -> Seq<ModView> {
    s.map_values(|m: Modifier| m@)
}

impl View for SpfRecord {
    type V = RecordView;

    open spec fn view(&self) -> RecordView {
        RecordView {
            mechanisms: mechs_view(self.mechanisms@),
            modifiers: mods_view(self.modifiers@),
            raw: self.raw@,
        }
    }
}

/// The record holds an `all` mechanism.
pub open spec fn has_all(r: RecordView) -> bool {
    exists|i: int| 0 <= i < r.mechanisms.len() && (#[trigger] r.mechanisms[i]) is All
}

/// The domain of the first `redirect=` modifier at or after position `i`.
pub open spec fn first_redirect_from(mods: Seq<ModView>, i: int) -> Option<Seq<char>>
    decreases mods.len() - i,
{
    if i < 0 || i >= mods.len() {
        None
    } else {
        match mods[i] {
            ModView::Redirect { domain } => Some(domain),
            ModView::Exp { .. } => first_redirect_from(mods, i + 1),
        }
    }
}

/// The domain of the record's first `redirect=` modifier.
pub open spec fn redirect_of(r: RecordView) -> Option<Seq<char>> {
    first_redirect_from(r.modifiers, 0)
}

impl SpfRecord {
    /// Whether the record holds an `all` mechanism.
    pub fn has_all_mechanism(&self) -> (r: bool)
        ensures
            r == has_all(self@),
    {
        let mut i: usize = 0;
        while i < self.mechanisms.len()
            invariant
                i <= self.mechanisms@.len(),
                forall|j: int| 0 <= j < i ==> !(#[trigger] self@.mechanisms[j] is All),
            decreases self.mechanisms.len() - i,
        {
            match &self.mechanisms[i] {
                Mechanism::All { .. } => {
                    assert(self@.mechanisms[i as int] is All);
                    return true;
                },
                _ => {},
            }
            i = i + 1;
        }
        false
    }

    /// The domain of the first `redirect=` modifier.
    pub fn redirect_domain(&self) -> (r: Option<&str>)
        ensures
            r is Some <==> redirect_of(self@) is Some,
            r matches Some(d) ==> redirect_of(self@) == Some(d@),
    {
        let mut i: usize = 0;
        while i < self.modifiers.len()
            invariant
                i <= self.modifiers@.len(),
                redirect_of(self@) == first_redirect_from(self@.modifiers, i as int),
            decreases self.modifiers.len() - i,
        {
            match &self.modifiers[i] {
                Modifier::Redirect { domain } => {
                    return Some(domain.as_str());
                },
                _ => {},
            }
            i = i + 1;
        }
        None
    }
}

/// The qualifier in front of a term and the rest of the term; `+` when none is written.
pub open spec fn split_qualifier(term: Seq<char>) -> (Qualifier, Seq<char>) {
    if term.len() > 0 && qualifier_of(term[0]) is Some {
        (qualifier_of(term[0])->0, term.skip(1))
    } else {
        (Qualifier::Pass, term)
    }
}

/// A lowercased domain; `None` for an empty one.
pub open spec fn opt_lower(d: Seq<char>) -> Option<Seq<char>> {
    if d.len() == 0 {
        None
    } else {
        Some(lowercase(d))
    }
}

/// The part of an `a`/`mx` body after the mechanism name: what follows `name:`, or
/// the `/cidr` part of `name/cidr`, or nothing for the bare `name`.
pub open spec fn after_name(body: Seq<char>, name: Seq<char>) -> Seq<char> {
    match strip_prefix(body, name + ":"@) {
        Some(v) => v,
        None => if body == name {
            Seq::empty()
        } else if starts_with(body, name + "/"@) {
            body.skip(name.len() as int)
        } else {
            body
        },
    }
}

/// A domain with CIDR lengths of `a`/`mx`: `name[:domain][/cidr4][//cidr6]`;
/// no domain (`None`) means the current domain.
pub open spec fn domain_cidr_spec(body: Seq<char>, name: Seq<char>) -> Result<
    (Option<Seq<char>>, Option<u8>, Option<u8>),
    ErrView,
> {
    domain_cidrs_of(after_name(body, name))
}

/// `[domain][/cidr4][//cidr6]`: the domain (`None` when empty) and the CIDR lengths.
pub open spec fn domain_cidrs_of(value: Seq<char>) -> Result<
    (Option<Seq<char>>, Option<u8>, Option<u8>),
    ErrView,
> {
    match first_occurrence(value, "//"@) {
        Some(dp) => {
            let before = value.take(dp);
            let after = value.skip(dp + "//"@.len());
            match u8_text_value(after) {
                None => Err(ErrView::InvalidCidr(after)),
                Some(cidr6) => match last_index_of(before, '/') {
                    Some(sp) => match u8_text_value(before.skip(sp + 1)) {
                        None => Err(ErrView::InvalidCidr(before.skip(sp + 1))),
                        Some(cidr4) => Ok((opt_lower(before.take(sp)), Some(cidr4), Some(cidr6))),
                    },
                    None => Ok((opt_lower(before), None, Some(cidr6))),
                },
            }
        },
        None => match last_index_of(value, '/') {
            Some(sp) => match u8_text_value(value.skip(sp + 1)) {
                None => Err(ErrView::InvalidCidr(value.skip(sp + 1))),
                Some(cidr4) => Ok((opt_lower(value.take(sp)), Some(cidr4), None)),
            },
            None => Ok((opt_lower(value), None, None)),
        },
    }
}

/// An `ip4:` value: a network if it holds `/`, else a single address with prefix 32.
pub open spec fn ip4_spec(q: Qualifier, value: Seq<char>) -> Result<MechView, ErrView> {
    if value.contains('/') {
        match ipv4_network_parse(value) {
            Ok((addr, prefix)) => Ok(MechView::Ip4 { qualifier: q, addr, prefix }),
            Err(e) => Err(ErrView::InvalidCidr(value + ": "@ + net_error_text(e))),
        }
    } else {
        match ipv4_network_parse(value) {
            Ok((addr, _)) => Ok(MechView::Ip4 { qualifier: q, addr, prefix: 32 }),
            Err(NetErrView::InvalidAddr(m)) => Err(ErrView::InvalidIp(value + ": "@ + m)),
            Err(e) => Err(ErrView::InvalidIp(value + ": "@ + net_error_text(e))),
        }
    }
}

/// An `ip6:` value: a network if it holds `/`, else a single address with prefix 128.
pub open spec fn ip6_spec(q: Qualifier, value: Seq<char>) -> Result<MechView, ErrView> {
    if value.contains('/') {
        match ipv6_network_parse(value) {
            Ok((addr, prefix)) => Ok(MechView::Ip6 { qualifier: q, addr, prefix }),
            Err(e) => Err(ErrView::InvalidCidr(value + ": "@ + net_error_text(e))),
        }
    } else {
        match ipv6_network_parse(value) {
            Ok((addr, _)) => Ok(MechView::Ip6 { qualifier: q, addr, prefix: 128 }),
            Err(NetErrView::InvalidAddr(m)) => Err(ErrView::InvalidIp(value + ": "@ + m)),
            Err(e) => Err(ErrView::InvalidIp(value + ": "@ + net_error_text(e))),
        }
    }
}

/// Whether `body` names the mechanism `name`: `name`, `name:...` or `name/...`.
pub open spec fn names_mechanism(body: Seq<char>, name: Seq<char>) -> bool {
    body == name || starts_with(body, name + ":"@) || starts_with(body, name + "/"@)
}

/// The mechanism a term denotes.
pub open spec fn mechanism_spec(term: Seq<char>) -> Result<MechView, ErrView> {
    let q = split_qualifier(term).0;
    let body = split_qualifier(term).1;
    if body == "all"@ {
        Ok(MechView::All { qualifier: q })
    } else if strip_prefix(body, "include:"@) is Some {
        Ok(MechView::Include { qualifier: q, domain: lowercase(strip_prefix(body, "include:"@)->0) })
    } else if names_mechanism(body, "a"@) {
        match domain_cidr_spec(body, "a"@) {
            Ok((domain, cidr4, cidr6)) => Ok(MechView::A { qualifier: q, domain, cidr4, cidr6 }),
            Err(e) => Err(e),
        }
    } else if names_mechanism(body, "mx"@) {
        match domain_cidr_spec(body, "mx"@) {
            Ok((domain, cidr4, cidr6)) => Ok(MechView::Mx { qualifier: q, domain, cidr4, cidr6 }),
            Err(e) => Err(e),
        }
    } else if strip_prefix(body, "ip4:"@) is Some {
        ip4_spec(q, strip_prefix(body, "ip4:"@)->0)
    } else if strip_prefix(body, "ip6:"@) is Some {
        ip6_spec(q, strip_prefix(body, "ip6:"@)->0)
    } else if body == "ptr"@ || starts_with(body, "ptr:"@) {
        Ok(
            MechView::Ptr {
                qualifier: q,
                domain: match strip_prefix(body, "ptr:"@) {
                    Some(d) => Some(lowercase(d)),
                    None => None,
                },
            },
        )
    } else if strip_prefix(body, "exists:"@) is Some {
        Ok(MechView::Exists { qualifier: q, domain: lowercase(strip_prefix(body, "exists:"@)->0) })
    } else {
        Err(ErrView::MalformedSpf { domain: Seq::empty(), reason: "未知机制: "@ + body })
    }
}

/// The modifier a `name=value` term denotes; `None` for an unknown name.
pub open spec fn modifier_spec(term: Seq<char>) -> Option<ModView> {
    if strip_prefix(term, "redirect="@) is Some {
        Some(ModView::Redirect { domain: lowercase(strip_prefix(term, "redirect="@)->0) })
    } else if strip_prefix(term, "exp="@) is Some {
        Some(ModView::Exp { domain: lowercase(strip_prefix(term, "exp="@)->0) })
    } else {
        None
    }
}

/// The mechanisms and modifiers of the first `n` terms; the first bad mechanism is the error.
pub open spec fn terms_upto(terms: Seq<Seq<char>>, n: int) -> Result<
    (Seq<MechView>, Seq<ModView>),
    ErrView,
>
    decreases n,
{
    if n <= 0 {
        Ok((Seq::empty(), Seq::empty()))
    } else {
        match terms_upto(terms, n - 1) {
            Err(e) => Err(e),
            Ok((ms, mods)) => {
                let t = terms[n - 1];
                if t.contains('=') {
                    match modifier_spec(t) {
                        Some(m) => Ok((ms, mods.push(m))),
                        None => Ok((ms, mods)),
                    }
                } else {
                    match mechanism_spec(t) {
                        Ok(m) => Ok((ms.push(m), mods)),
                        Err(e) => Err(e),
                    }
                }
            },
        }
    }
}

/// Once a term is bad, every longer prefix of the terms fails with the same error.
proof fn lemma_terms_err_sticky(terms: Seq<Seq<char>>, k: int, n: int)
    requires
        0 <= k <= n,
        terms_upto(terms, k) is Err,
    ensures
        terms_upto(terms, n) == terms_upto(terms, k),
    decreases n - k,
{
    if n > k {
        lemma_terms_err_sticky(terms, k, n - 1);
    }
}

/// The record that the TXT text `txt` denotes.
pub open spec fn spf_spec(txt: Seq<char>) -> Result<RecordView, ErrView> {
    let t = trimmed(txt);
    if !starts_with(t, "v=spf1"@) {
        Err(ErrView::MalformedSpf { domain: Seq::empty(), reason: "记录不以 v=spf1 开头"@ })
    } else {
        let rest = t.skip("v=spf1"@.len() as int);
        if rest.len() > 0 && rest[0] != ' ' && rest[0] != '\t' {
            Err(ErrView::MalformedSpf { domain: Seq::empty(), reason: "v=spf1 后必须为空格"@ })
        } else {
            let terms = whitespace_terms(rest);
            match terms_upto(terms, terms.len() as int) {
                Err(e) => Err(e),
                Ok((ms, mods)) => Ok(RecordView { mechanisms: ms, modifiers: mods, raw: t }),
            }
        }
    }
}

/// View of the result of parsing a domain with CIDR lengths.
pub open spec fn dc_view(r: SpfResult<(Option<String>, Option<u8>, Option<u8>)>) -> Result<
    (Option<Seq<char>>, Option<u8>, Option<u8>),
    ErrView,
> {
    match r {
        Ok((d, c4, c6)) => Ok((opt_str(d), c4, c6)),
        Err(e) => Err(e@),
    }
}

/// View of the result of parsing a mechanism.
pub open spec fn mech_result_view(r: SpfResult<Mechanism>) -> Result<MechView, ErrView> {
    match r {
        Ok(m) => Ok(m@),
        Err(e) => Err(e@),
    }
}

/// View of the result of parsing a record.
pub open spec fn record_result_view(r: SpfResult<SpfRecord>) -> Result<RecordView, ErrView> {
    match r {
        Ok(m) => Ok(m@),
        Err(e) => Err(e@),
    }
}

/// The qualifier in front of a term and the rest of the term.
pub fn extract_qualifier(term: &str) -> (r: (Qualifier, &str))
    ensures
        (r.0, r.1@) == split_qualifier(term@),
{
    let n = char_len(term);
    if n > 0 {
        if let Some(q) = Qualifier::from_prefix(term.get_char(0)) {
            return (q, slice(term, 1, n));
        }
    }
    (Qualifier::Pass, term)
}

fn lower_opt(d: &str) -> (r: Option<String>)
    ensures
        opt_str(r) == opt_lower(d@),
{
    if char_len(d) == 0 {
        None
    } else {
        Some(to_lower(d))
    }
}

/// Parses `name[:domain][/cidr4][//cidr6]`.
pub fn parse_domain_cidr(body: &str, mechanism_name: &str) -> (r: SpfResult<
    (Option<String>, Option<u8>, Option<u8>),
>)
    ensures
        dc_view(r) == domain_cidr_spec(body@, mechanism_name@),
{
    let name_colon = concat2(mechanism_name, ":");
    let name_slash = concat2(mechanism_name, "/");
    let value: &str = match strip_prefix_exec(body, name_colon.as_str()) {
        Some(v) => v,
        None => if str_eq(body, mechanism_name) {
            ""
        } else if starts_with_exec(body, name_slash.as_str()) {
            slice(body, char_len(mechanism_name), char_len(body))
        } else {
            body
        },
    };
    proof {
        reveal_strlit("");
    }
    assert(value@ == after_name(body@, mechanism_name@));
    let vlen = char_len(value);
    let sep = "//";
    proof {
        reveal_strlit("//");
    }
    match find_exec(value, sep) {
        Some(dp) => {
            proof {
                lemma_first_occurrence(value@, "//"@, 0);
            }
            let before = slice(value, 0, dp);
            let after = slice(value, dp + 2, vlen);
            let cidr6 = match parse_u8_exec(after) {
                Some(c) => c,
                None => {
                    return Err(SpfError::InvalidCidr(String::from_str(after)));
                },
            };
            match rfind_char_exec(before, '/') {
                Some(sp) => {
                    proof {
                        lemma_last_index(before@, '/', before@.len() as int);
                    }
                    let d = slice(before, 0, sp);
                    let c4_text = slice(before, sp + 1, dp);
                    match parse_u8_exec(c4_text) {
                        Some(c4) => Ok((lower_opt(d), Some(c4), Some(cidr6))),
                        None => Err(SpfError::InvalidCidr(String::from_str(c4_text))),
                    }
                },
                None => Ok((lower_opt(before), None, Some(cidr6))),
            }
        },
        None => {
            match rfind_char_exec(value, '/') {
                Some(sp) => {
                    proof {
                        lemma_last_index(value@, '/', value@.len() as int);
                    }
                    let d = slice(value, 0, sp);
                    let c4_text = slice(value, sp + 1, vlen);
                    match parse_u8_exec(c4_text) {
                        Some(c4) => Ok((lower_opt(d), Some(c4), None)),
                        None => Err(SpfError::InvalidCidr(String::from_str(c4_text))),
                    }
                },
                None => Ok((lower_opt(value), None, None)),
            }
        },
    }
}

fn with_colon_detail(value: &str, e: &str) -> (r: String)
    ensures
        r@ == value@ + ": "@ + e@,
{
    let mut r = String::from_str(value);
    r.append(": ");
    r.append(e);
    r
}

/// Parses the value of an `ip4:` mechanism.
pub fn parse_ip4(qualifier: Qualifier, value: &str) -> (r: SpfResult<Mechanism>)
    ensures
        mech_result_view(r) == ip4_spec(qualifier, value@),
{
    if contains_char_exec(value, '/') {
        match parse_ipv4_network(value) {
            Ok((addr, prefix)) => match Ipv4Net::new(addr, prefix) {
                Some(network) => Ok(Mechanism::Ip4 { qualifier, network }),
                None => Err(SpfError::InvalidCidr(String::from_str(value))),
            },
            Err(e) => {
                let m = e.message();
                Err(SpfError::InvalidCidr(with_colon_detail(value, m.as_str())))
            },
        }
    } else {
        match parse_ipv4_network(value) {
            Ok((addr, _)) => match Ipv4Net::new(addr, 32) {
                Some(network) => Ok(Mechanism::Ip4 { qualifier, network }),
                None => Err(SpfError::InvalidIp(String::from_str(value))),
            },
            Err(NetParseError::InvalidAddr(m)) => Err(SpfError::InvalidIp(with_colon_detail(value, m.as_str()))),
            Err(e) => {
                let m = e.message();
                Err(SpfError::InvalidIp(with_colon_detail(value, m.as_str())))
            },
        }
    }
}

/// Parses the value of an `ip6:` mechanism.
pub fn parse_ip6(qualifier: Qualifier, value: &str) -> (r: SpfResult<Mechanism>)
    ensures
        mech_result_view(r) == ip6_spec(qualifier, value@),
{
    if contains_char_exec(value, '/') {
        match parse_ipv6_network(value) {
            Ok((addr, prefix)) => match Ipv6Net::new(addr, prefix) {
                Some(network) => Ok(Mechanism::Ip6 { qualifier, network }),
                None => Err(SpfError::InvalidCidr(String::from_str(value))),
            },
            Err(e) => {
                let m = e.message();
                Err(SpfError::InvalidCidr(with_colon_detail(value, m.as_str())))
            },
        }
    } else {
        match parse_ipv6_network(value) {
            Ok((addr, _)) => match Ipv6Net::new(addr, 128) {
                Some(network) => Ok(Mechanism::Ip6 { qualifier, network }),
                None => Err(SpfError::InvalidIp(String::from_str(value))),
            },
            Err(NetParseError::InvalidAddr(m)) => Err(SpfError::InvalidIp(with_colon_detail(value, m.as_str()))),
            Err(e) => {
                let m = e.message();
                Err(SpfError::InvalidIp(with_colon_detail(value, m.as_str())))
            },
        }
    }
}

fn names_mechanism_exec(body: &str, name: &str) -> (r: bool)
    ensures
        r == names_mechanism(body@, name@),
{
    let with_colon = concat2(name, ":");
    let with_slash = concat2(name, "/");
    str_eq(body, name) || starts_with_exec(body, with_colon.as_str()) || starts_with_exec(
        body,
        with_slash.as_str(),
    )
}

/// Parses the `a` mechanism: `a`, `a:domain`, `a/cidr`, `a:domain/cidr4//cidr6`.
pub fn parse_a_mechanism(qualifier: Qualifier, body: &str) -> (r: SpfResult<Mechanism>)
    ensures
        mech_result_view(r) == (match domain_cidr_spec(body@, "a"@) {
            Ok((domain, cidr4, cidr6)) => Ok(MechView::A { qualifier, domain, cidr4, cidr6 }),
            Err(e) => Err(e),
        }),
{
    match parse_domain_cidr(body, "a") {
        Ok((domain, cidr4, cidr6)) => Ok(Mechanism::A { qualifier, domain, cidr4, cidr6 }),
        Err(e) => Err(e),
    }
}

/// Parses the `mx` mechanism: `mx`, `mx:domain`, `mx/cidr`, `mx:domain/cidr4//cidr6`.
pub fn parse_mx_mechanism(qualifier: Qualifier, body: &str) -> (r: SpfResult<Mechanism>)
    ensures
        mech_result_view(r) == (match domain_cidr_spec(body@, "mx"@) {
            Ok((domain, cidr4, cidr6)) => Ok(MechView::Mx { qualifier, domain, cidr4, cidr6 }),
            Err(e) => Err(e),
        }),
{
    match parse_domain_cidr(body, "mx") {
        Ok((domain, cidr4, cidr6)) => Ok(Mechanism::Mx { qualifier, domain, cidr4, cidr6 }),
        Err(e) => Err(e),
    }
}

/// Parses one mechanism term.
pub fn parse_mechanism(term: &str) -> (r: SpfResult<Mechanism>)
    ensures
        mech_result_view(r) == mechanism_spec(term@),
{
    let (qualifier, body) = extract_qualifier(term);
    if str_eq(body, "all") {
        return Ok(Mechanism::All { qualifier });
    }
    if let Some(domain) = strip_prefix_exec(body, "include:") {
        return Ok(Mechanism::Include { qualifier, domain: to_lower(domain) });
    }
    if names_mechanism_exec(body, "a") {
        return parse_a_mechanism(qualifier, body);
    }
    if names_mechanism_exec(body, "mx") {
        return parse_mx_mechanism(qualifier, body);
    }
    if let Some(value) = strip_prefix_exec(body, "ip4:") {
        return parse_ip4(qualifier, value);
    }
    if let Some(value) = strip_prefix_exec(body, "ip6:") {
        return parse_ip6(qualifier, value);
    }
    if str_eq(body, "ptr") || starts_with_exec(body, "ptr:") {
        let domain = match strip_prefix_exec(body, "ptr:") {
            Some(d) => Some(to_lower(d)),
            None => None,
        };
        return Ok(Mechanism::Ptr { qualifier, domain });
    }
    if let Some(domain) = strip_prefix_exec(body, "exists:") {
        return Ok(Mechanism::Exists { qualifier, domain: to_lower(domain) });
    }
    Err(
        SpfError::MalformedSpf {
            domain: String::new(),
            reason: concat2("未知机制: ", body),
        },
    )
}

/// Parses one `name=value` term; unknown names give `None`.
pub fn parse_modifier(term: &str) -> (r: Option<Modifier>)
    ensures
        r is Some <==> modifier_spec(term@) is Some,
        r matches Some(m) ==> modifier_spec(term@) == Some(m@),
{
    if let Some(domain) = strip_prefix_exec(term, "redirect=") {
        Some(Modifier::Redirect { domain: to_lower(domain) })
    } else if let Some(domain) = strip_prefix_exec(term, "exp=") {
        Some(Modifier::Exp { domain: to_lower(domain) })
    } else {
        None
    }
}

/// Parses an SPF TXT record.
pub fn parse_spf(txt: &str) -> (r: SpfResult<SpfRecord>)
    ensures
        record_result_view(r) == spf_spec(txt@),
{
    let trimmed_txt = trim_str(txt);
    if !starts_with_exec(trimmed_txt, "v=spf1") {
        return Err(
            SpfError::MalformedSpf {
                domain: String::new(),
                reason: String::from_str("记录不以 v=spf1 开头"),
            },
        );
    }
    let n = char_len(trimmed_txt);
    let k = char_len("v=spf1");
    let rest = slice(trimmed_txt, k, n);
    if char_len(rest) > 0 {
        let c = rest.get_char(0);
        if c != ' ' && c != '\t' {
            return Err(
                SpfError::MalformedSpf {
                    domain: String::new(),
                    reason: String::from_str("v=spf1 后必须为空格"),
                },
            );
        }
    }
    let terms = split_terms(rest);
    let ghost tv = whitespace_terms(rest@);
    assert(strings_view(terms@) =~= tv);
    match parse_terms(&terms) {
        Ok((mechanisms, modifiers)) => Ok(SpfRecord { mechanisms, modifiers, raw: String::from_str(trimmed_txt) }),
        Err(e) => Err(e),
    }
}

/// View of the result of parsing terms.
pub open spec fn terms_result_view(r: SpfResult<(Vec<Mechanism>, Vec<Modifier>)>) -> Result<
    (Seq<MechView>, Seq<ModView>),
    ErrView,
> {
    match r {
        Ok((ms, mods)) => Ok((mechs_view(ms@), mods_view(mods@))),
        Err(e) => Err(e@),
    }
}

/// Parses the whitespace-separated terms of an SPF record (after `v=spf1`): a term
/// with `=` is a modifier (unknown ones are ignored), any other a mechanism; the
/// first bad mechanism is the error.
pub fn parse_terms(terms: &Vec<String>) -> (r: SpfResult<(Vec<Mechanism>, Vec<Modifier>)>)
    ensures
        terms_result_view(r) == terms_upto(strings_view(terms@), terms@.len() as int),
{
    let ghost tv = strings_view(terms@);
    let mut mechanisms: Vec<Mechanism> = Vec::new();
    let mut modifiers: Vec<Modifier> = Vec::new();
    let mut i: usize = 0;
    assert(mechs_view(mechanisms@) =~= Seq::<MechView>::empty());
    assert(mods_view(modifiers@) =~= Seq::<ModView>::empty());
    while i < terms.len()
        invariant
            tv == strings_view(terms@),
            tv.len() == terms@.len(),
            i <= terms@.len(),
            terms_upto(tv, i as int) == Ok::<(Seq<MechView>, Seq<ModView>), ErrView>(
                (mechs_view(mechanisms@), mods_view(modifiers@)),
            ),
        decreases terms.len() - i,
    {
        let term = terms[i].as_str();
        assert(term@ == tv[i as int]);
        if contains_char_exec(term, '=') {
            match parse_modifier(term) {
                Some(m) => {
                    let ghost before = modifiers@;
                    modifiers.push(m);
                    assert(mods_view(modifiers@) =~= mods_view(before).push(m@));
                },
                None => {},
            }
        } else {
            match parse_mechanism(term) {
                Ok(m) => {
                    let ghost before = mechanisms@;
                    mechanisms.push(m);
                    assert(mechs_view(mechanisms@) =~= mechs_view(before).push(m@));
                },
                Err(e) => {
                    proof {
                        lemma_terms_err_sticky(tv, i + 1, tv.len() as int);
                    }
                    return Err(e);
                },
            }
        }
        i = i + 1;
    }
    Ok((mechanisms, modifiers))
}

} // verus!
