//! What each mechanism does, stated over its inputs: which lookup it makes, when it
//! matches, and how its qualifier turns a match into the outcome (RFC 7208 §4.6.2, §5).

use vstd::prelude::*;

use crate::dns::{ip_outcome, next_count, AnswerView, QueryView, MAX_DNS_LOOKUPS};
use crate::matcher::any_resolved_match;
use crate::net::{in_net4, in_net6, lemma_full_prefix_is_exact, ipv4_network_parse, ipv6_network_parse, IpAddress};
use crate::resolver::{
    after_mechs_spec, eval_mech_spec, mechs_spec, resolve_spec, EvalState, Flow, MechEval,
};
use crate::spf::{has_all, ip4_spec, ip6_spec, redirect_of, MechView, Qualifier, RecordView};
use crate::tree::{NodeStatus, TreeView};

verus! {

/// The outcome of a mechanism whose condition is `matched`: a match is terminal,
/// authorizing under `+` and denying under `-`, `~` and `?`; no match goes on.
pub open spec fn outcome_of(q: Qualifier, matched: bool) -> MechEval {
    if !matched {
        MechEval::Skip
    } else if q == Qualifier::Pass {
        MechEval::Authorized
    } else {
        MechEval::Denied
    }
}

/// `ip4:` matches exactly the IPv4 addresses inside its network; it makes no lookup,
/// and the node is the match point exactly when the IP is authorized.
pub proof fn lemma_ip4_mechanism(
    ans: Seq<AnswerView>,
    ip: IpAddress,
    st: EvalState,
    q: Qualifier,
    addr: u32,
    prefix: u8,
    current: Seq<char>,
    fuel: nat,
)
    ensures
        ({
            let (f, s) = eval_mech_spec(ans, ip, st, MechView::Ip4 { qualifier: q, addr, prefix }, current, fuel);
            let inside = match ip {
                IpAddress::V4(a) => in_net4(addr, prefix, a),
                IpAddress::V6(_) => false,
            };
            &&& s == st
            &&& f matches Flow::Ready((node, e))
            &&& e == outcome_of(q, inside)
            &&& node.is_match_point == (e is Authorized)
        }),
{
}

/// `ip6:` matches exactly the IPv6 addresses inside its network; it makes no lookup.
pub proof fn lemma_ip6_mechanism(
    ans: Seq<AnswerView>,
    ip: IpAddress,
    st: EvalState,
    q: Qualifier,
    addr: u128,
    prefix: u8,
    current: Seq<char>,
    fuel: nat,
)
    ensures
        ({
            let (f, s) = eval_mech_spec(ans, ip, st, MechView::Ip6 { qualifier: q, addr, prefix }, current, fuel);
            let inside = match ip {
                IpAddress::V6(a) => in_net6(addr, prefix, a),
                IpAddress::V4(_) => false,
            };
            &&& s == st
            &&& f matches Flow::Ready((node, e))
            &&& e == outcome_of(q, inside)
            &&& node.is_match_point == (e is Authorized)
        }),
{
}

/// The domain a mechanism applies to: its own when it names one, else the current one.
pub open spec fn target_of(domain: Option<Seq<char>>, current: Seq<char>) -> Seq<char> {
    match domain {
        Some(d) => d,
        None => current,
    }
}

/// With the counter within the limit and no answer left to read, each looking-up
/// mechanism asks for its own lookup: `a` the addresses of its target domain, `mx` the
/// MX records of its target domain, `exists` the addresses of its domain, `ptr` the
/// names of the checked IP, `include` the TXT records of its domain.
pub proof fn lemma_mechanism_lookups(
    ans: Seq<AnswerView>,
    ip: IpAddress,
    st: EvalState,
    q: Qualifier,
    domain: Option<Seq<char>>,
    name: Seq<char>,
    cidr4: Option<u8>,
    cidr6: Option<u8>,
    current: Seq<char>,
    fuel: nat,
)
    requires
        next_count(st.count) <= MAX_DNS_LOOKUPS,
        st.pos >= ans.len(),
    ensures
        eval_mech_spec(ans, ip, st, MechView::A { qualifier: q, domain, cidr4, cidr6 }, current, fuel).0
            == Flow::<(TreeView, MechEval)>::Pending(QueryView::Ip(target_of(domain, current))),
        eval_mech_spec(ans, ip, st, MechView::Mx { qualifier: q, domain, cidr4, cidr6 }, current, fuel).0
            == Flow::<(TreeView, MechEval)>::Pending(QueryView::Mx(target_of(domain, current))),
        eval_mech_spec(ans, ip, st, MechView::Exists { qualifier: q, domain: name }, current, fuel).0
            == Flow::<(TreeView, MechEval)>::Pending(QueryView::Ip(name)),
        eval_mech_spec(ans, ip, st, MechView::Ptr { qualifier: q, domain }, current, fuel).0 == Flow::<
            (TreeView, MechEval),
        >::Pending(QueryView::Ptr(ip)),
        fuel > 0 && !st.visited.contains(name) ==> eval_mech_spec(
            ans,
            ip,
            st,
            MechView::Include { qualifier: q, domain: name },
            current,
            fuel,
        ).0 == Flow::<(TreeView, MechEval)>::Pending(QueryView::Txt(name)),
{
}

/// `exists` matches exactly when the lookup of its domain returns at least one address;
/// an empty answer, or a lookup refused by the limit, is no match.
pub proof fn lemma_exists_mechanism(
    ans: Seq<AnswerView>,
    ip: IpAddress,
    st: EvalState,
    q: Qualifier,
    name: Seq<char>,
    current: Seq<char>,
    fuel: nat,
)
    requires
        next_count(st.count) > MAX_DNS_LOOKUPS || 0 <= st.pos < ans.len(),
    ensures
        ({
            let (f, s) = eval_mech_spec(ans, ip, st, MechView::Exists { qualifier: q, domain: name }, current, fuel);
            let found = next_count(st.count) <= MAX_DNS_LOOKUPS && ip_outcome(ans[st.pos]).len() > 0;
            &&& f matches Flow::Ready((node, e))
            &&& e == outcome_of(q, found)
            &&& s.count == next_count(st.count)
        }),
{
}

/// `a` matches exactly when one of the addresses of its target domain is within the
/// CIDR lengths of the checked IP; a lookup refused by the limit is no match.
pub proof fn lemma_a_mechanism(
    ans: Seq<AnswerView>,
    ip: IpAddress,
    st: EvalState,
    q: Qualifier,
    domain: Option<Seq<char>>,
    cidr4: Option<u8>,
    cidr6: Option<u8>,
    current: Seq<char>,
    fuel: nat,
)
    requires
        next_count(st.count) > MAX_DNS_LOOKUPS || 0 <= st.pos < ans.len(),
    ensures
        ({
            let (f, s) = eval_mech_spec(
                ans,
                ip,
                st,
                MechView::A { qualifier: q, domain, cidr4, cidr6 },
                current,
                fuel,
            );
            let ips = if next_count(st.count) <= MAX_DNS_LOOKUPS {
                ip_outcome(ans[st.pos])
            } else {
                Seq::<IpAddress>::empty()
            };
            &&& f matches Flow::Ready((node, e))
            &&& e == outcome_of(q, any_resolved_match(ip, ips, cidr4, cidr6))
            &&& node.is_match_point == (e is Authorized)
            &&& s.count == next_count(st.count)
        }),
{
}

/// `redirect=` (RFC 7208 §6.1): when no mechanism was terminal and the record has no
/// `all`, the outcome is that of the redirect domain's resolution, whatever the
/// number of mechanisms (none included); the redirect node, under the record's root,
/// holds the redirect domain's tree.
pub proof fn lemma_redirect_followed(
    ans: Seq<AnswerView>,
    ip: IpAddress,
    st: EvalState,
    record: RecordView,
    spf_text: Seq<char>,
    root: TreeView,
    rd: Seq<char>,
    fuel: nat,
)
    requires
        !has_all(record),
        redirect_of(record) == Some(rd),
    ensures
        ({
            let (f, s) = after_mechs_spec(ans, ip, st, record, spf_text, root, None, fuel);
            let (g, t) = resolve_spec(ans, ip, st, rd, fuel);
            &&& s == t
            &&& match g {
                Flow::Pending(x) => f matches Flow::Pending(y) && y == x,
                Flow::Ready(Err(e)) => f matches Flow::Ready(Err(e2)) && e2 == e,
                Flow::Ready(Ok((tree, auth, mm, mt))) => f matches Flow::Ready(Ok((root2, fa, fm, ft)))
                    && fa == Some(auth) && fm == mm && ft == mt && root2.children.len() == root.children.len()
                    + 1 && root2.children.last().children == seq![tree],
            }
        }),
{
    let (g, t) = resolve_spec(ans, ip, st, rd, fuel);
    if let Flow::Ready(Ok((tree, auth, mm, mt))) = g {
        let (f, s) = after_mechs_spec(ans, ip, st, record, spf_text, root, None, fuel);
        if let Flow::Ready(Ok((root2, fa, fm, ft))) = f {
            assert(root2.children.last().children =~= seq![tree]);
        }
    }
}

/// A record without mechanisms has no terminal one: evaluating its mechanisms reads
/// nothing and leaves the root as it is.
pub proof fn lemma_no_mechanisms(
    ans: Seq<AnswerView>,
    ip: IpAddress,
    st: EvalState,
    domain: Seq<char>,
    fuel: nat,
    root: TreeView,
)
    ensures
        mechs_spec(ans, ip, st, Seq::empty(), 0, domain, fuel, root) == (
            Flow::Ready((root, None::<(bool, Seq<char>)>)),
            st,
        ),
{
}

/// An `ip4:` or `ip6:` value without `/` is a single address: it parses to the
/// address of full prefix length (32 or 128), so the mechanism matches that address
/// and no other.
pub proof fn lemma_single_address_values(q: Qualifier, value: Seq<char>, x4: u32, x6: u128)
    requires
        !value.contains('/'),
    ensures
        ip4_spec(q, value) is Ok <==> ipv4_network_parse(value) is Ok,
        ip6_spec(q, value) is Ok <==> ipv6_network_parse(value) is Ok,
        ip4_spec(q, value) matches Ok(m) ==> (m matches MechView::Ip4 { qualifier, addr, prefix } && qualifier
            == q && prefix == 32 && addr == ipv4_network_parse(value)->Ok_0.0 && (in_net4(addr, prefix, x4)
            <==> x4 == addr)),
        ip6_spec(q, value) matches Ok(m) ==> (m matches MechView::Ip6 { qualifier, addr, prefix } && qualifier
            == q && prefix == 128 && addr == ipv6_network_parse(value)->Ok_0.0 && (in_net6(addr, prefix, x6)
            <==> x6 == addr)),
{
    if let Ok((a4, _)) = ipv4_network_parse(value) {
        if let Ok((a6, _)) = ipv6_network_parse(value) {
            lemma_full_prefix_is_exact(a4, x4, a6, x6);
        } else {
            lemma_full_prefix_is_exact(a4, x4, 0, x6);
        }
    } else if let Ok((a6, _)) = ipv6_network_parse(value) {
        lemma_full_prefix_is_exact(0, x4, a6, x6);
    }
}

/// `mx` whose MX lookup fails or returns no exchange matches nothing: it is skipped,
/// marked with a warning, and makes no further lookup.
pub proof fn lemma_mx_without_exchanges(
    ans: Seq<AnswerView>,
    ip: IpAddress,
    st: EvalState,
    q: Qualifier,
    domain: Option<Seq<char>>,
    cidr4: Option<u8>,
    cidr6: Option<u8>,
    current: Seq<char>,
    fuel: nat,
)
    requires
        next_count(st.count) <= MAX_DNS_LOOKUPS,
        0 <= st.pos < ans.len(),
        crate::dns::mx_outcome(ans[st.pos]) matches Ok(recs) ==> recs.len() == 0,
    ensures
        ({
            let (f, s) = eval_mech_spec(ans, ip, st, MechView::Mx { qualifier: q, domain, cidr4, cidr6 }, current, fuel);
            &&& f matches Flow::Ready((node, e))
            &&& e is Skip
            &&& node.status == NodeStatus::Warning
            &&& s.pos == st.pos + 1
        }),
{
}

/// An exchange's addresses, read from the answer at `pos`, hold the checked IP.
pub open spec fn exchange_hit(ans: Seq<AnswerView>, pos: int, ip: IpAddress, cidr4: Option<u8>, cidr6: Option<u8>) -> bool {
    any_resolved_match(ip, ip_outcome(ans[pos]), cidr4, cidr6)
}

proof fn lemma_mx_loop_matches(
    ans: Seq<AnswerView>,
    ip: IpAddress,
    st: EvalState,
    recs: Seq<(u16, Seq<char>)>,
    i: int,
    q: Qualifier,
    cidr4: Option<u8>,
    cidr6: Option<u8>,
    node: TreeView,
    any: bool,
)
    requires
        0 <= i <= recs.len(),
        st.count + (recs.len() - i) <= MAX_DNS_LOOKUPS,
        0 <= st.pos,
        st.pos + (recs.len() - i) <= ans.len(),
    ensures
        ({
            let (f, s) = crate::resolver::mx_loop_spec(ans, ip, st, recs, i, q, cidr4, cidr6, node, any);
            &&& f matches Flow::Ready((n2, _)) && n2.is_match_point == node.is_match_point
            &&& f matches Flow::Ready((_, any2)) && any2 == (any || exists|j: int|
                i <= j < recs.len() && #[trigger] exchange_hit(ans, st.pos + (j - i), ip, cidr4, cidr6))
            &&& s.pos == st.pos + (recs.len() - i)
            &&& s.count == st.count + (recs.len() - i)
        }),
    decreases recs.len() - i,
{
    if i < recs.len() {
        let (r, st1) = crate::resolver::ip_lookup_spec(ans, st, recs[i].1);
        assert(st1.pos == st.pos + 1 && st1.count == st.count + 1);
        let ips = ip_outcome(ans[st.pos]);
        assert(r == Flow::Ready(Ok::<Seq<IpAddress>, crate::error::ErrView>(ips)));
        let hit = any_resolved_match(ip, ips, cidr4, cidr6);
        let child_authorized = hit && q == Qualifier::Pass;
        let child = crate::resolver::with_detail_v(
            crate::resolver::leaf(
                recs[i].1,
                if child_authorized {
                    NodeStatus::Match
                } else {
                    NodeStatus::NoMatch
                },
            ),
            crate::resolver::ips_detail(ips),
        );
        let node2 = crate::resolver::add_child_v(node, child);
        lemma_mx_loop_matches(ans, ip, st1, recs, i + 1, q, cidr4, cidr6, node2, any || hit);
        let later = exists|j: int|
            i + 1 <= j < recs.len() && #[trigger] exchange_hit(ans, st1.pos + (j - (i + 1)), ip, cidr4, cidr6);
        let all = exists|j: int| i <= j < recs.len() && #[trigger] exchange_hit(ans, st.pos + (j - i), ip, cidr4, cidr6);
        assert(exchange_hit(ans, st.pos + (i - i), ip, cidr4, cidr6) == hit);
        if later {
            let j = choose|j: int|
                i + 1 <= j < recs.len() && #[trigger] exchange_hit(ans, st1.pos + (j - (i + 1)), ip, cidr4, cidr6);
            assert(st1.pos + (j - (i + 1)) == st.pos + (j - i));
            assert(all);
        }
        if all {
            let j = choose|j: int| i <= j < recs.len() && #[trigger] exchange_hit(ans, st.pos + (j - i), ip, cidr4, cidr6);
            if j > i {
                assert(st1.pos + (j - (i + 1)) == st.pos + (j - i));
                assert(later);
            }
        }
        assert((hit || later) == all);
    }
}

/// `mx` (RFC 7208 §5.4) matches exactly when the checked IP is within the CIDR lengths
/// of an address of one of the exchanges its MX lookup returns; each exchange costs one
/// counted address lookup, read in order after the MX answer.
pub proof fn lemma_mx_mechanism(
    ans: Seq<AnswerView>,
    ip: IpAddress,
    st: EvalState,
    q: Qualifier,
    domain: Option<Seq<char>>,
    cidr4: Option<u8>,
    cidr6: Option<u8>,
    current: Seq<char>,
    fuel: nat,
    recs: Seq<(u16, Seq<char>)>,
)
    requires
        0 <= st.pos,
        st.pos + 1 + recs.len() <= ans.len(),
        st.count + 1 + recs.len() <= MAX_DNS_LOOKUPS,
        crate::dns::mx_outcome(ans[st.pos]) == Ok::<Seq<(u16, Seq<char>)>, Seq<char>>(recs),
    ensures
        ({
            let (f, s) = eval_mech_spec(ans, ip, st, MechView::Mx { qualifier: q, domain, cidr4, cidr6 }, current, fuel);
            &&& f matches Flow::Ready((node, e))
            &&& e == outcome_of(q, exists|j: int| 0 <= j < recs.len() && #[trigger] exchange_hit(ans, st.pos + 1 + j, ip, cidr4, cidr6))
            &&& node.is_match_point == (e is Authorized)
            &&& s.pos == st.pos + 1 + recs.len()
        }),
{
    let target = target_of(domain, current);
    let (r, st1) = crate::resolver::mx_lookup_spec(ans, st, target);
    assert(st1.pos == st.pos + 1 && st1.count == st.count + 1);
    assert(r == Flow::Ready(Ok::<Seq<(u16, Seq<char>)>, crate::error::ErrView>(recs)));
    let node0 = crate::resolver::leaf(crate::spf::mech_text(MechView::Mx { qualifier: q, domain, cidr4, cidr6 }), NodeStatus::Info);
    lemma_mx_loop_matches(ans, ip, st1, recs, 0, q, cidr4, cidr6, node0, false);
    let a = exists|j: int| 0 <= j < recs.len() && #[trigger] exchange_hit(ans, st1.pos + (j - 0), ip, cidr4, cidr6);
    let b = exists|j: int| 0 <= j < recs.len() && #[trigger] exchange_hit(ans, st.pos + 1 + j, ip, cidr4, cidr6);
    if a {
        let j = choose|j: int| 0 <= j < recs.len() && #[trigger] exchange_hit(ans, st1.pos + (j - 0), ip, cidr4, cidr6);
        assert(st1.pos + (j - 0) == st.pos + 1 + j);
        assert(b);
    }
    if b {
        let j = choose|j: int| 0 <= j < recs.len() && #[trigger] exchange_hit(ans, st.pos + 1 + j, ip, cidr4, cidr6);
        assert(st1.pos + (j - 0) == st.pos + 1 + j);
        assert(a);
    }
    assert(a == b);
    let (r2, st2) = crate::resolver::mx_loop_spec(ans, ip, st1, recs, 0, q, cidr4, cidr6, node0, false);
    assert(r2 matches Flow::Ready((_, any2)) && any2 == a);
}

/// A PTR name is accepted for `target` (RFC 7208 §5.5) when it is `target` or ends
/// with `.` followed by `target`.
pub open spec fn ptr_name_accepted(name: Seq<char>, target: Seq<char>) -> bool {
    name == target || crate::text::ends_with(name, "."@ + target)
}

/// PTR names outside the target domain are never looked up and never match: when no
/// name of `names[i..]` is accepted, the search reads nothing and finds nothing.
pub proof fn lemma_ptr_names_outside_ignored(
    ans: Seq<AnswerView>,
    ip: IpAddress,
    st: EvalState,
    names: Seq<Seq<char>>,
    i: int,
    target: Seq<char>,
)
    requires
        forall|j: int| i <= j < names.len() ==> !ptr_name_accepted(#[trigger] names[j], target),
    ensures
        crate::resolver::ptr_loop_spec(ans, ip, st, names, i, target) == (Flow::Ready(false), st),
    decreases names.len() - i,
{
    if 0 <= i < names.len() {
        assert(!ptr_name_accepted(names[i], target));
        lemma_ptr_names_outside_ignored(ans, ip, st, names, i + 1, target);
    }
}

/// An accepted PTR name whose address lookup returns the checked IP validates it at
/// once, with one counted lookup.
pub proof fn lemma_ptr_name_validated(
    ans: Seq<AnswerView>,
    ip: IpAddress,
    st: EvalState,
    names: Seq<Seq<char>>,
    i: int,
    target: Seq<char>,
)
    requires
        0 <= i < names.len(),
        ptr_name_accepted(names[i], target),
        next_count(st.count) <= MAX_DNS_LOOKUPS,
        0 <= st.pos < ans.len(),
        ip_outcome(ans[st.pos]).contains(ip),
    ensures
        crate::resolver::ptr_loop_spec(ans, ip, st, names, i, target).0 == Flow::<bool>::Ready(true),
        crate::resolver::ptr_loop_spec(ans, ip, st, names, i, target).1.pos == st.pos + 1,
{
}

/// A `ptr` mechanism whose PTR lookup fails matches nothing.
pub proof fn lemma_ptr_lookup_failure(
    ans: Seq<AnswerView>,
    ip: IpAddress,
    st: EvalState,
    q: Qualifier,
    domain: Option<Seq<char>>,
    current: Seq<char>,
    fuel: nat,
)
    requires
        next_count(st.count) <= MAX_DNS_LOOKUPS,
        0 <= st.pos < ans.len(),
        crate::dns::ptr_outcome(ans[st.pos]) is Err,
    ensures
        eval_mech_spec(ans, ip, st, MechView::Ptr { qualifier: q, domain }, current, fuel).0 matches Flow::Ready(
            (node, e),
        ) && e is Skip && node.status == NodeStatus::NoMatch,
{
}

} // verus!
