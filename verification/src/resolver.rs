//! The SPF evaluator.
//!
//! An SPF check alternates DNS lookups and decisions. Here it is a function of the
//! answers received so far: [`SpfResolver::check`] replays the evaluation over the
//! given answers, the k-th lookup of the evaluation reading the k-th answer, and
//! either finishes or names the next lookup it needs. The caller performs that
//! lookup, appends the answer and calls again.

use vstd::prelude::*;

use crate::dns::{
    count_lookup, ip_list, ip_outcome, mx_outcome, next_count, ptr_outcome, sort_mx_records,
    spf_texts, strip_names, txt_outcome, AnswerView, DnsAnswer, DnsQuery, QueryView,
    MAX_DNS_LOOKUPS,
};
use crate::error::{error_text, join_text, strings_view, ErrView, SpfError, SpfResult};
use crate::matcher::{any_resolved_match, ip_in_resolved_ips};
use crate::net::{in_net4, in_net6, ip_string, ip_text, IpAddress};
use crate::spf::{
    has_all, mech_text, opt_str, parse_spf, redirect_of, spf_spec, MechView, Mechanism, ModView, Modifier,
    Qualifier, RecordView, SpfRecord,
};
use crate::text::{concat2, ends_with, ends_with_exec, str_eq};
use crate::tree::{NodeStatus, TreeNode, TreeView};

verus! {

/// Three-way outcome of evaluating one mechanism.
#[derive(Debug, Clone, Copy, PartialEq, Eq, Structural)]
pub enum MechEval {
    /// The mechanism matched and its qualifier is `+`: the IP is authorized.
    Authorized,
    /// The mechanism matched with another qualifier: a final, negative result.
    Denied,
    /// The mechanism did not match: go on with the next one.
    Skip,
}

impl MechEval {
    /// The evaluation stops here.
    pub fn is_terminal(self) -> (r: bool)
        ensures
            r == !(self is Skip),
    {
        match self {
            MechEval::Skip => false,
            _ => true,
        }
    }

    /// The IP is authorized.
    pub fn is_authorized(self) -> (r: bool)
        ensures
            r == (self is Authorized),
    {
        match self {
            MechEval::Authorized => true,
            _ => false,
        }
    }
}

/// What the evaluator has done so far: answers read, lookups counted, domains on the include chain.
pub struct EvalState {
    pub pos: int,
    pub count: u32,
    pub visited: Seq<Seq<char>>,
}

/// A result, or the lookup whose answer is still missing.
pub enum Flow<T> {
    Ready(T),
    Pending(QueryView),
}

/// Reads the next answer, or asks for `q` when all answers have been read.
pub open spec fn exchange(ans: Seq<AnswerView>, st: EvalState, q: QueryView) -> (Flow<AnswerView>, EvalState) {
    if 0 <= st.pos < ans.len() {
        (Flow::Ready(ans[st.pos]), EvalState { pos: st.pos + 1, ..st })
    } else {
        (Flow::Pending(q), st)
    }
}

/// Counts a lookup; past the limit it fails.
pub open spec fn count_step(st: EvalState, domain: Seq<char>) -> (Result<(), ErrView>, EvalState) {
    let c = next_count(st.count);
    let st2 = EvalState { count: c, ..st };
    if c > MAX_DNS_LOOKUPS {
        (Err(ErrView::DnsLookupLimitExceeded { count: c, domain }), st2)
    } else {
        (Ok(()), st2)
    }
}

/// A counted TXT lookup: the SPF texts of `domain`.
pub open spec fn txt_lookup_spec(ans: Seq<AnswerView>, st: EvalState, domain: Seq<char>) -> (
    Flow<Result<Seq<Seq<char>>, ErrView>>,
    EvalState,
) {
    let (c, st1) = count_step(st, domain);
    match c {
        Err(e) => (Flow::Ready(Err(e)), st1),
        Ok(_) => {
            let (r, st2) = exchange(ans, st1, QueryView::Txt(domain));
            match r {
                Flow::Pending(q) => (Flow::Pending(q), st2),
                Flow::Ready(a) => (
                    Flow::Ready(
                        match txt_outcome(a) {
                            Ok(texts) => Ok(texts),
                            Err(m) => Err(ErrView::DnsQueryFailed { domain, message: m }),
                        },
                    ),
                    st2,
                ),
            }
        },
    }
}

/// A counted MX lookup: the exchanges of `domain`, sorted by preference.
pub open spec fn mx_lookup_spec(ans: Seq<AnswerView>, st: EvalState, domain: Seq<char>) -> (
    Flow<Result<Seq<(u16, Seq<char>)>, ErrView>>,
    EvalState,
) {
    let (c, st1) = count_step(st, domain);
    match c {
        Err(e) => (Flow::Ready(Err(e)), st1),
        Ok(_) => {
            let (r, st2) = exchange(ans, st1, QueryView::Mx(domain));
            match r {
                Flow::Pending(q) => (Flow::Pending(q), st2),
                Flow::Ready(a) => (
                    Flow::Ready(
                        match mx_outcome(a) {
                            Ok(recs) => Ok(recs),
                            Err(m) => Err(ErrView::DnsQueryFailed { domain, message: m }),
                        },
                    ),
                    st2,
                ),
            }
        },
    }
}

/// An uncounted MX lookup for display; a failure gives no exchanges.
pub open spec fn mx_display_spec(ans: Seq<AnswerView>, st: EvalState, domain: Seq<char>) -> (
    Flow<Seq<(u16, Seq<char>)>>,
    EvalState,
) {
    let (r, st1) = exchange(ans, st, QueryView::Mx(domain));
    match r {
        Flow::Pending(q) => (Flow::Pending(q), st1),
        Flow::Ready(a) => (
            Flow::Ready(
                match mx_outcome(a) {
                    Ok(recs) => recs,
                    Err(_) => Seq::empty(),
                },
            ),
            st1,
        ),
    }
}

/// A counted A/AAAA lookup.
pub open spec fn ip_lookup_spec(ans: Seq<AnswerView>, st: EvalState, domain: Seq<char>) -> (
    Flow<Result<Seq<IpAddress>, ErrView>>,
    EvalState,
) {
    let (c, st1) = count_step(st, domain);
    match c {
        Err(e) => (Flow::Ready(Err(e)), st1),
        Ok(_) => {
            let (r, st2) = exchange(ans, st1, QueryView::Ip(domain));
            match r {
                Flow::Pending(q) => (Flow::Pending(q), st2),
                Flow::Ready(a) => (Flow::Ready(Ok(ip_outcome(a))), st2),
            }
        },
    }
}

/// An uncounted A/AAAA lookup.
pub open spec fn ip_nocount_spec(ans: Seq<AnswerView>, st: EvalState, domain: Seq<char>) -> (
    Flow<Seq<IpAddress>>,
    EvalState,
) {
    let (r, st1) = exchange(ans, st, QueryView::Ip(domain));
    match r {
        Flow::Pending(q) => (Flow::Pending(q), st1),
        Flow::Ready(a) => (Flow::Ready(ip_outcome(a)), st1),
    }
}

/// A counted PTR lookup of `ip`.
pub open spec fn ptr_lookup_spec(ans: Seq<AnswerView>, st: EvalState, ip: IpAddress) -> (
    Flow<Result<Seq<Seq<char>>, ErrView>>,
    EvalState,
) {
    let (c, st1) = count_step(st, ip_text(ip));
    match c {
        Err(e) => (Flow::Ready(Err(e)), st1),
        Ok(_) => {
            let (r, st2) = exchange(ans, st1, QueryView::Ptr(ip));
            match r {
                Flow::Pending(q) => (Flow::Pending(q), st2),
                Flow::Ready(a) => (
                    Flow::Ready(
                        match ptr_outcome(a) {
                            Ok(names) => Ok(names),
                            Err(m) => Err(ErrView::DnsQueryFailed { domain: ip_text(ip), message: m }),
                        },
                    ),
                    st2,
                ),
            }
        },
    }
}

/// A node with a label and a status only.
pub open spec fn leaf(label: Seq<char>, status: NodeStatus) -> TreeView {
    TreeView { label, detail: None, status, children: Seq::empty(), is_match_point: false }
}

/// The node with a detail.
pub open spec fn with_detail_v(n: TreeView, d: Seq<char>) -> TreeView {
    TreeView { detail: Some(d), ..n }
}

/// The node with one more child.
pub open spec fn add_child_v(n: TreeView, c: TreeView) -> TreeView {
    TreeView { children: n.children.push(c), ..n }
}

/// The node marked as the match point.
pub open spec fn match_point_v(n: TreeView) -> TreeView {
    TreeView { is_match_point: true, status: NodeStatus::Match, ..n }
}

/// The node marked as the match point when the IP is authorized by it.
pub open spec fn mark_if(n: TreeView, e: MechEval) -> TreeView {
    if e is Authorized {
        match_point_v(n)
    } else {
        n
    }
}

/// `Match` for an authorizing mechanism, else `NoMatch`.
pub open spec fn eval_status(e: MechEval) -> NodeStatus {
    if e is Authorized {
        NodeStatus::Match
    } else {
        NodeStatus::NoMatch
    }
}

/// A mechanism whose condition is `matched`: its qualifier decides, else it is skipped.
pub open spec fn qualified(q: Qualifier, matched: bool) -> MechEval {
    if matched {
        if q == Qualifier::Pass {
            MechEval::Authorized
        } else {
            MechEval::Denied
        }
    } else {
        MechEval::Skip
    }
}

/// Texts of addresses.
pub open spec fn ip_texts(ips: Seq<IpAddress>) -> Seq<Seq<char>> {
    ips.map_values(|ip: IpAddress| ip_text(ip))
}

/// The detail listing resolved addresses.
pub open spec fn ips_detail(ips: Seq<IpAddress>) -> Seq<char> {
    if ips.len() == 0 {
        "无 A/AAAA 记录"@
    } else {
        join_text(ip_texts(ips), ", "@)
    }
}

/// Evaluates the exchanges `records[i..]` of an `mx` mechanism: each gets a child
/// node; the flag tells whether the IP matched any of them.
pub open spec fn mx_loop_spec(
    ans: Seq<AnswerView>,
    ip: IpAddress,
    st: EvalState,
    records: Seq<(u16, Seq<char>)>,
    i: int,
    q: Qualifier,
    cidr4: Option<u8>,
    cidr6: Option<u8>,
    node: TreeView,
    any: bool,
) -> (Flow<(TreeView, bool)>, EvalState)
    decreases records.len() - i,
{
    if i < 0 || i >= records.len() {
        (Flow::Ready((node, any)), st)
    } else {
        let exchange_name = records[i].1;
        let (r, st1) = ip_lookup_spec(ans, st, exchange_name);
        match r {
            Flow::Pending(qq) => (Flow::Pending(qq), st1),
            Flow::Ready(res) => {
                let ips = match res {
                    Ok(ips) => ips,
                    Err(_) => Seq::empty(),
                };
                let in_range = any_resolved_match(ip, ips, cidr4, cidr6);
                let child_authorized = in_range && q == Qualifier::Pass;
                let child = with_detail_v(
                    leaf(
                        exchange_name,
                        if child_authorized {
                            NodeStatus::Match
                        } else {
                            NodeStatus::NoMatch
                        },
                    ),
                    ips_detail(ips),
                );
                mx_loop_spec(ans, ip, st1, records, i + 1, q, cidr4, cidr6, add_child_v(node, child), any || in_range)
            },
        }
    }
}

/// A PTR name is within `target` (RFC 7208 §5.5) when it is `target` itself or ends
/// with `.` followed by `target`.
pub open spec fn name_within(name: Seq<char>, target: Seq<char>) -> bool {
    name == target || ends_with(name, "."@ + target)
}

/// Whether one of the PTR names `names[i..]` within `target` resolves back to the IP
/// (each name within `target` costs a counted lookup; the first hit stops).
pub open spec fn ptr_loop_spec(
    ans: Seq<AnswerView>,
    ip: IpAddress,
    st: EvalState,
    names: Seq<Seq<char>>,
    i: int,
    target: Seq<char>,
) -> (Flow<bool>, EvalState)
    decreases names.len() - i,
{
    if i < 0 || i >= names.len() {
        (Flow::Ready(false), st)
    } else {
        let name = names[i];
        if name_within(name, target) {
            let (r, st1) = ip_lookup_spec(ans, st, name);
            match r {
                Flow::Pending(qq) => (Flow::Pending(qq), st1),
                Flow::Ready(Ok(ips)) => if ips.contains(ip) {
                    (Flow::Ready(true), st1)
                } else {
                    ptr_loop_spec(ans, ip, st1, names, i + 1, target)
                },
                Flow::Ready(Err(_)) => ptr_loop_spec(ans, ip, st1, names, i + 1, target),
            }
        } else {
            ptr_loop_spec(ans, ip, st, names, i + 1, target)
        }
    }
}

/// The outcome of resolving a domain: tree, authorized, matched mechanism, matched TXT.
pub type ResolveOut = (TreeView, bool, Option<Seq<char>>, Option<Seq<char>>);

/// Evaluates one mechanism of the record of `current`.
pub open spec fn eval_mech_spec(
    ans: Seq<AnswerView>,
    ip: IpAddress,
    st: EvalState,
    m: MechView,
    current: Seq<char>,
    fuel: nat,
) -> (Flow<(TreeView, MechEval)>, EvalState)
    decreases fuel, 1int, 0int,
{
    let text = mech_text(m);
    match m {
        MechView::All { qualifier } => {
            let e = qualified(qualifier, true);
            (Flow::Ready((mark_if(leaf(text, eval_status(e)), e), e)), st)
        },
        MechView::Ip4 { qualifier, addr, prefix } => {
            let in_range = match ip {
                IpAddress::V4(a) => in_net4(addr, prefix, a),
                IpAddress::V6(_) => false,
            };
            let e = qualified(qualifier, in_range);
            (Flow::Ready((mark_if(leaf(text, eval_status(e)), e), e)), st)
        },
        MechView::Ip6 { qualifier, addr, prefix } => {
            let in_range = match ip {
                IpAddress::V6(a) => in_net6(addr, prefix, a),
                IpAddress::V4(_) => false,
            };
            let e = qualified(qualifier, in_range);
            (Flow::Ready((mark_if(leaf(text, eval_status(e)), e), e)), st)
        },
        MechView::A { qualifier, domain, cidr4, cidr6 } => {
            let target = match domain {
                Some(d) => d,
                None => current,
            };
            let (r, st1) = ip_lookup_spec(ans, st, target);
            match r {
                Flow::Pending(q) => (Flow::Pending(q), st1),
                Flow::Ready(res) => {
                    let ips = match res {
                        Ok(ips) => ips,
                        Err(_) => Seq::empty(),
                    };
                    let e = qualified(qualifier, any_resolved_match(ip, ips, cidr4, cidr6));
                    (
                        Flow::Ready(
                            (mark_if(with_detail_v(leaf(text, eval_status(e)), ips_detail(ips)), e), e),
                        ),
                        st1,
                    )
                },
            }
        },
        MechView::Mx { qualifier, domain, cidr4, cidr6 } => {
            let target = match domain {
                Some(d) => d,
                None => current,
            };
            let (r, st1) = mx_lookup_spec(ans, st, target);
            match r {
                Flow::Pending(q) => (Flow::Pending(q), st1),
                Flow::Ready(res) => {
                    let records = match res {
                        Ok(recs) => recs,
                        Err(_) => Seq::empty(),
                    };
                    let (r2, st2) = mx_loop_spec(
                        ans,
                        ip,
                        st1,
                        records,
                        0,
                        qualifier,
                        cidr4,
                        cidr6,
                        leaf(text, NodeStatus::Info),
                        false,
                    );
                    match r2 {
                        Flow::Pending(q) => (Flow::Pending(q), st2),
                        Flow::Ready((node, any)) => {
                            let e = qualified(qualifier, any);
                            let node2 = if e is Authorized {
                                match_point_v(node)
                            } else if records.len() == 0 {
                                TreeView { status: NodeStatus::Warning, detail: Some("无 MX 记录"@), ..node }
                            } else {
                                TreeView { status: NodeStatus::NoMatch, ..node }
                            };
                            (Flow::Ready((node2, e)), st2)
                        },
                    }
                },
            }
        },
        MechView::Include { qualifier, domain } => {
            let node = leaf(text, NodeStatus::Info);
            let (r, st1) = resolve_spec(ans, ip, st, domain, fuel);
            match r {
                Flow::Pending(q) => (Flow::Pending(q), st1),
                Flow::Ready(Ok(out)) => {
                    let e = if out.1 {
                        qualified(qualifier, true)
                    } else {
                        MechEval::Skip
                    };
                    (
                        Flow::Ready(
                            (add_child_v(mark_if(TreeView { status: eval_status(e), ..node }, e), out.0), e),
                        ),
                        st1,
                    )
                },
                Flow::Ready(Err(err)) => (
                    Flow::Ready(
                        (
                            TreeView {
                                status: NodeStatus::Error,
                                detail: Some("错误: "@ + error_text(err)),
                                ..node
                            },
                            MechEval::Skip,
                        ),
                    ),
                    st1,
                ),
            }
        },
        MechView::Ptr { qualifier, domain } => {
            let target = match domain {
                Some(d) => d,
                None => current,
            };
            let node = with_detail_v(leaf(text, NodeStatus::Warning), "⚠ ptr 机制已废弃 (RFC 7208 §5.5)"@);
            let (r, st1) = ptr_lookup_spec(ans, st, ip);
            match r {
                Flow::Pending(q) => (Flow::Pending(q), st1),
                Flow::Ready(Err(_)) => (
                    Flow::Ready((TreeView { status: NodeStatus::NoMatch, ..node }, MechEval::Skip)),
                    st1,
                ),
                Flow::Ready(Ok(names)) => {
                    let (r2, st2) = ptr_loop_spec(ans, ip, st1, names, 0, target);
                    match r2 {
                        Flow::Pending(q) => (Flow::Pending(q), st2),
                        Flow::Ready(found) => {
                            let e = qualified(qualifier, found);
                            (
                                Flow::Ready(
                                    (mark_if(TreeView { status: eval_status(e), ..node }, e), e),
                                ),
                                st2,
                            )
                        },
                    }
                },
            }
        },
        MechView::Exists { qualifier, domain } => {
            let (r, st1) = ip_lookup_spec(ans, st, domain);
            match r {
                Flow::Pending(q) => (Flow::Pending(q), st1),
                Flow::Ready(res) => {
                    let exists = match res {
                        Ok(ips) => ips.len() > 0,
                        Err(_) => false,
                    };
                    let e = qualified(qualifier, exists);
                    (Flow::Ready((mark_if(leaf(text, eval_status(e)), e), e)), st1)
                },
            }
        },
    }
}

/// Evaluates the mechanisms `mechs[i..]` of the record of `domain` in order, each
/// adding its node to `root`, until one is terminal; that one's outcome
/// (authorized, its text) is returned with the tree.
pub open spec fn mechs_spec(
    ans: Seq<AnswerView>,
    ip: IpAddress,
    st: EvalState,
    mechs: Seq<MechView>,
    i: int,
    domain: Seq<char>,
    fuel: nat,
    root: TreeView,
) -> (Flow<(TreeView, Option<(bool, Seq<char>)>)>, EvalState)
    decreases fuel, 2int, mechs.len() - i,
{
    if i < 0 || i >= mechs.len() {
        (Flow::Ready((root, None)), st)
    } else {
        let (r, st1) = eval_mech_spec(ans, ip, st, mechs[i], domain, fuel);
        match r {
            Flow::Pending(q) => (Flow::Pending(q), st1),
            Flow::Ready((child, e)) => {
                let root2 = add_child_v(root, child);
                if e is Skip {
                    mechs_spec(ans, ip, st1, mechs, i + 1, domain, fuel, root2)
                } else {
                    (Flow::Ready((root2, Some((e is Authorized, mech_text(mechs[i]))))), st1)
                }
            },
        }
    }
}

/// Adds an informational node for each `exp=` modifier in `mods[i..]`.
pub open spec fn exp_nodes(root: TreeView, mods: Seq<ModView>, i: int) -> TreeView
    decreases mods.len() - i,
{
    if i < 0 || i >= mods.len() {
        root
    } else {
        match mods[i] {
            ModView::Exp { domain } => exp_nodes(
                add_child_v(
                    root,
                    with_detail_v(leaf("exp="@ + domain, NodeStatus::Info), "解释域名（不影响 SPF 结果）"@),
                ),
                mods,
                i + 1,
            ),
            ModView::Redirect { .. } => exp_nodes(root, mods, i + 1),
        }
    }
}

/// The result of a record's mechanisms, completed by its `redirect=` when no
/// mechanism was terminal and the record has no `all`.
pub open spec fn after_mechs_spec(
    ans: Seq<AnswerView>,
    ip: IpAddress,
    st: EvalState,
    record: RecordView,
    spf_text: Seq<char>,
    root: TreeView,
    found: Option<(bool, Seq<char>)>,
    fuel: nat,
) -> (Flow<Result<(TreeView, Option<bool>, Option<Seq<char>>, Option<Seq<char>>), ErrView>>, EvalState)
    decreases fuel, 0int, 1int,
{
    if found is None && !has_all(record) && redirect_of(record) is Some {
        let rd = redirect_of(record)->0;
        let (rr, s) = resolve_spec(ans, ip, st, rd, fuel);
        match rr {
            Flow::Pending(q) => (Flow::Pending(q), s),
            Flow::Ready(Err(e)) => (Flow::Ready(Err(e)), s),
            Flow::Ready(Ok((rtree, rauth, rmech, rtxt))) => (
                Flow::Ready(
                    Ok(
                        (
                            add_child_v(
                                root,
                                add_child_v(
                                    leaf(
                                        "redirect="@ + rd,
                                        if rauth {
                                            NodeStatus::Match
                                        } else {
                                            NodeStatus::NoMatch
                                        },
                                    ),
                                    rtree,
                                ),
                            ),
                            Some(rauth),
                            rmech,
                            rtxt,
                        ),
                    ),
                ),
                s,
            ),
        }
    } else {
        match found {
            Some((a, t)) => (Flow::Ready(Ok((root, Some(a), Some(t), Some(spf_text)))), st),
            None => (Flow::Ready(Ok((root, None, None, None))), st),
        }
    }
}

/// The state after leaving `domain`: it is taken off the include chain.
pub open spec fn leave(st: EvalState, domain: Seq<char>) -> EvalState {
    EvalState { visited: st.visited.remove_value(domain), ..st }
}

/// Resolves the SPF record of `domain`: detects a revisit of a domain on the
/// include chain, reads the single SPF record, evaluates its mechanisms in order,
/// follows `redirect=` when nothing matched and there is no `all`, lists `exp=`;
/// `domain` leaves the chain again however the resolution ends. `fuel` bounds the nesting; it is never exhausted when it exceeds the number of
/// answers not yet read.
pub open spec fn resolve_spec(
    ans: Seq<AnswerView>,
    ip: IpAddress,
    st: EvalState,
    domain: Seq<char>,
    fuel: nat,
) -> (Flow<Result<ResolveOut, ErrView>>, EvalState)
    decreases fuel, 0int, 0int,
{
    if fuel == 0 {
        (Flow::Pending(QueryView::Txt(domain)), st)
    } else if st.visited.contains(domain) {
        (Flow::Ready(Err(ErrView::CircularReference { chain: st.visited })), st)
    } else {
        let st0 = EvalState { visited: st.visited.push(domain), ..st };
        let (r, st1) = txt_lookup_spec(ans, st0, domain);
        match r {
            Flow::Pending(q) => (Flow::Pending(q), st1),
            Flow::Ready(Err(e)) => (Flow::Ready(Err(e)), leave(st1, domain)),
            Flow::Ready(Ok(texts)) => {
                if texts.len() == 0 {
                    (Flow::Ready(Err(ErrView::NoSpfRecord(domain))), leave(st1, domain))
                } else if texts.len() > 1 {
                    (Flow::Ready(Err(ErrView::MultipleSpfRecords(domain))), leave(st1, domain))
                } else {
                    let spf_text = texts[0];
                    match spf_spec(spf_text) {
                        Err(e) => (
                            Flow::Ready(Err(ErrView::MalformedSpf { domain, reason: error_text(e) })),
                            leave(st1, domain),
                        ),
                        Ok(record) => {
                            let root = with_detail_v(leaf(domain, NodeStatus::Info), spf_text);
                            let (r2, st2) = mechs_spec(
                                ans,
                                ip,
                                st1,
                                record.mechanisms,
                                0,
                                domain,
                                (fuel - 1) as nat,
                                root,
                            );
                            match r2 {
                                Flow::Pending(q) => (Flow::Pending(q), st2),
                                Flow::Ready((root2, found)) => {
                                    let (r3, st3) = after_mechs_spec(
                                        ans,
                                        ip,
                                        st2,
                                        record,
                                        spf_text,
                                        root2,
                                        found,
                                        (fuel - 1) as nat,
                                    );
                                    match r3 {
                                        Flow::Pending(q) => (Flow::Pending(q), st3),
                                        Flow::Ready(Err(e)) => (Flow::Ready(Err(e)), leave(st3, domain)),
                                        Flow::Ready(Ok((root3, final_auth, mm, mt))) => (
                                            Flow::Ready(
                                                Ok(
                                                    (
                                                        exp_nodes(root3, record.modifiers, 0),
                                                        final_auth == Some(true),
                                                        mm,
                                                        mt,
                                                    ),
                                                ),
                                            ),
                                            leave(st3, domain),
                                        ),
                                    }
                                },
                            }
                        },
                    }
                }
            },
        }
    }
}


/// A result, or the lookup whose answer is still missing.
pub enum Step<T> {
    Ready(T),
    Pending(DnsQuery),
}

/// Where an evaluation stands: answers read, lookups counted, domains on the include chain.
struct Cursor {
    pos: usize,
    count: u32,
    visited: Vec<String>,
}

spec fn cur_view(c: Cursor) -> EvalState {
    EvalState { pos: c.pos as int, count: c.count, visited: strings_view(c.visited@) }
}

/// Views of answers.
pub open spec fn answers_view(v: Seq<DnsAnswer>) -> Seq<AnswerView> {
    v.map_values(|a: DnsAnswer| a@)
}

spec fn texts_res_view(x: SpfResult<Vec<String>>) -> Result<Seq<Seq<char>>, ErrView> {
    match x {
        Ok(v) => Ok(strings_view(v@)),
        Err(e) => Err(e@),
    }
}

spec fn mx_res_view(x: SpfResult<Vec<(u16, String)>>) -> Result<Seq<(u16, Seq<char>)>, ErrView> {
    match x {
        Ok(v) => Ok(crate::dns::mx_view(v@)),
        Err(e) => Err(e@),
    }
}

spec fn ips_res_view(x: SpfResult<Vec<IpAddress>>) -> Result<Seq<IpAddress>, ErrView> {
    match x {
        Ok(v) => Ok(v@),
        Err(e) => Err(e@),
    }
}

spec fn steps_like<T, V>(r: Step<T>, f: Flow<V>, v: V) -> bool {
    match r {
        Step::Ready(_) => f == Flow::<V>::Ready(v),
        Step::Pending(q) => f == Flow::<V>::Pending(q@),
    }
}

spec fn step_value<T>(r: Step<T>) -> T
    recommends
        r is Ready,
{
    match r {
        Step::Ready(x) => x,
        Step::Pending(_) => arbitrary(),
    }
}

fn next_answer<'a>(answers: &'a Vec<DnsAnswer>, cur: &mut Cursor, q: DnsQuery) -> (r: Step<&'a DnsAnswer>)
    ensures
        ({
            let (f, s) = exchange(answers_view(answers@), cur_view(*old(cur)), q@);
            &&& s == cur_view(*final(cur))
            &&& steps_like(r, f, step_value(r)@)
        }),
        final(cur).pos >= old(cur).pos,
        old(cur).pos <= answers@.len() ==> final(cur).pos <= answers@.len(),
        final(cur).visited == old(cur).visited,
{
    if cur.pos < answers.len() {
        let a = &answers[cur.pos];
        cur.pos = cur.pos + 1;
        Step::Ready(a)
    } else {
        Step::Pending(q)
    }
}


fn count_in_cursor(cur: &mut Cursor, domain: &str) -> (r: SpfResult<()>)
    ensures
        ({
            let (c, st) = count_step(cur_view(*old(cur)), domain@);
            &&& st == cur_view(*final(cur))
            &&& (match r {
                Ok(_) => c is Ok,
                Err(e) => c == Err::<(), ErrView>(e@),
            })
        }),
        final(cur).pos == old(cur).pos,
        final(cur).visited == old(cur).visited,
{
    let mut c = cur.count;
    let r = count_lookup(&mut c, domain);
    cur.count = c;
    r
}

fn txt_lookup(answers: &Vec<DnsAnswer>, cur: &mut Cursor, domain: &str) -> (r: Step<SpfResult<Vec<String>>>)
    ensures
        ({
            let (f, s) = txt_lookup_spec(answers_view(answers@), cur_view(*old(cur)), domain@);
            &&& s == cur_view(*final(cur))
            &&& steps_like(r, f, texts_res_view(step_value(r)))
        }),
        final(cur).pos >= old(cur).pos,
        old(cur).pos <= answers@.len() ==> final(cur).pos <= answers@.len(),
        final(cur).visited == old(cur).visited,
{
    match count_in_cursor(cur, domain) {
        Err(e) => {
            return Step::Ready(Err(e));
        },
        Ok(()) => {},
    }
    match next_answer(answers, cur, DnsQuery::Txt(String::from_str(domain))) {
        Step::Pending(q) => Step::Pending(q),
        Step::Ready(a) => match a {
            DnsAnswer::Txt(Ok(records)) => Step::Ready(Ok(spf_texts(records))),
            DnsAnswer::Txt(Err(m)) => Step::Ready(
                Err(SpfError::DnsQueryFailed { domain: String::from_str(domain), message: m.clone() }),
            ),
            _ => Step::Ready(
                Err(SpfError::DnsQueryFailed { domain: String::from_str(domain), message: String::new() }),
            ),
        },
    }
}

fn mx_lookup(answers: &Vec<DnsAnswer>, cur: &mut Cursor, domain: &str) -> (r: Step<SpfResult<Vec<(u16, String)>>>)
    ensures
        ({
            let (f, s) = mx_lookup_spec(answers_view(answers@), cur_view(*old(cur)), domain@);
            &&& s == cur_view(*final(cur))
            &&& steps_like(r, f, mx_res_view(step_value(r)))
        }),
        final(cur).pos >= old(cur).pos,
        old(cur).pos <= answers@.len() ==> final(cur).pos <= answers@.len(),
        final(cur).visited == old(cur).visited,
{
    match count_in_cursor(cur, domain) {
        Err(e) => {
            return Step::Ready(Err(e));
        },
        Ok(()) => {},
    }
    match next_answer(answers, cur, DnsQuery::Mx(String::from_str(domain))) {
        Step::Pending(q) => Step::Pending(q),
        Step::Ready(a) => match a {
            DnsAnswer::Mx(Ok(records)) => Step::Ready(Ok(sort_mx_records(records))),
            DnsAnswer::Mx(Err(m)) => Step::Ready(
                Err(SpfError::DnsQueryFailed { domain: String::from_str(domain), message: m.clone() }),
            ),
            _ => Step::Ready(
                Err(SpfError::DnsQueryFailed { domain: String::from_str(domain), message: String::new() }),
            ),
        },
    }
}

fn mx_lookup_display(answers: &Vec<DnsAnswer>, cur: &mut Cursor, domain: &str) -> (r: Step<Vec<(u16, String)>>)
    ensures
        ({
            let (f, s) = mx_display_spec(answers_view(answers@), cur_view(*old(cur)), domain@);
            &&& s == cur_view(*final(cur))
            &&& steps_like(r, f, crate::dns::mx_view(step_value(r)@))
        }),
        final(cur).pos >= old(cur).pos,
        old(cur).pos <= answers@.len() ==> final(cur).pos <= answers@.len(),
        final(cur).visited == old(cur).visited,
{
    match next_answer(answers, cur, DnsQuery::Mx(String::from_str(domain))) {
        Step::Pending(q) => Step::Pending(q),
        Step::Ready(a) => match a {
            DnsAnswer::Mx(Ok(records)) => Step::Ready(sort_mx_records(records)),
            _ => {
                let v: Vec<(u16, String)> = Vec::new();
                assert(crate::dns::mx_view(v@) =~= Seq::<(u16, Seq<char>)>::empty());
                Step::Ready(v)
            },
        },
    }
}

fn ip_lookup(answers: &Vec<DnsAnswer>, cur: &mut Cursor, domain: &str) -> (r: Step<SpfResult<Vec<IpAddress>>>)
    ensures
        ({
            let (f, s) = ip_lookup_spec(answers_view(answers@), cur_view(*old(cur)), domain@);
            &&& s == cur_view(*final(cur))
            &&& steps_like(r, f, ips_res_view(step_value(r)))
        }),
        final(cur).pos >= old(cur).pos,
        old(cur).pos <= answers@.len() ==> final(cur).pos <= answers@.len(),
        final(cur).visited == old(cur).visited,
{
    match count_in_cursor(cur, domain) {
        Err(e) => {
            return Step::Ready(Err(e));
        },
        Ok(()) => {},
    }
    match next_answer(answers, cur, DnsQuery::Ip(String::from_str(domain))) {
        Step::Pending(q) => Step::Pending(q),
        Step::Ready(a) => match a {
            DnsAnswer::Ip { v4, v6 } => Step::Ready(Ok(ip_list(v4, v6))),
            _ => Step::Ready(Ok(Vec::new())),
        },
    }
}

fn ip_lookup_no_count(answers: &Vec<DnsAnswer>, cur: &mut Cursor, domain: &str) -> (r: Step<Vec<IpAddress>>)
    ensures
        ({
            let (f, s) = ip_nocount_spec(answers_view(answers@), cur_view(*old(cur)), domain@);
            &&& s == cur_view(*final(cur))
            &&& steps_like(r, f, step_value(r)@)
        }),
        final(cur).pos >= old(cur).pos,
        old(cur).pos <= answers@.len() ==> final(cur).pos <= answers@.len(),
        final(cur).visited == old(cur).visited,
{
    match next_answer(answers, cur, DnsQuery::Ip(String::from_str(domain))) {
        Step::Pending(q) => Step::Pending(q),
        Step::Ready(a) => match a {
            DnsAnswer::Ip { v4, v6 } => Step::Ready(ip_list(v4, v6)),
            _ => Step::Ready(Vec::new()),
        },
    }
}

fn ptr_lookup(answers: &Vec<DnsAnswer>, cur: &mut Cursor, ip: IpAddress) -> (r: Step<SpfResult<Vec<String>>>)
    ensures
        ({
            let (f, s) = ptr_lookup_spec(answers_view(answers@), cur_view(*old(cur)), ip);
            &&& s == cur_view(*final(cur))
            &&& steps_like(r, f, texts_res_view(step_value(r)))
        }),
        final(cur).pos >= old(cur).pos,
        old(cur).pos <= answers@.len() ==> final(cur).pos <= answers@.len(),
        final(cur).visited == old(cur).visited,
{
    let ip_str = ip_string(ip);
    match count_in_cursor(cur, ip_str.as_str()) {
        Err(e) => {
            return Step::Ready(Err(e));
        },
        Ok(()) => {},
    }
    match next_answer(answers, cur, DnsQuery::Ptr(ip)) {
        Step::Pending(q) => Step::Pending(q),
        Step::Ready(a) => match a {
            DnsAnswer::Ptr(Ok(names)) => Step::Ready(Ok(strip_names(names))),
            DnsAnswer::Ptr(Err(m)) => Step::Ready(
                Err(SpfError::DnsQueryFailed { domain: ip_str, message: m.clone() }),
            ),
            _ => Step::Ready(Err(SpfError::DnsQueryFailed { domain: ip_str, message: String::new() })),
        },
    }
}


fn contains_ip(ips: &Vec<IpAddress>, ip: IpAddress) -> (r: bool)
    ensures
        r == ips@.contains(ip),
{
    let mut i: usize = 0;
    while i < ips.len()
        invariant
            i <= ips@.len(),
            forall|j: int| 0 <= j < i ==> ips@[j] != ip,
        decreases ips.len() - i,
    {
        if ips[i] == ip {
            return true;
        }
        i = i + 1;
    }
    false
}

fn ips_detail_string(ips: &Vec<IpAddress>) -> (r: String)
    ensures
        r@ == ips_detail(ips@),
{
    if ips.len() == 0 {
        return String::from_str("无 A/AAAA 记录");
    }
    let mut texts: Vec<String> = Vec::new();
    let mut i: usize = 0;
    while i < ips.len()
        invariant
            i <= ips@.len(),
            texts@.len() == i,
            forall|j: int| 0 <= j < i ==> #[trigger] texts@[j]@ == ip_text(ips@[j]),
        decreases ips.len() - i,
    {
        texts.push(ip_string(ips[i]));
        i = i + 1;
    }
    assert(strings_view(texts@) =~= ip_texts(ips@));
    crate::error::join_strings(&texts, ", ")
}

fn visited_contains(v: &Vec<String>, d: &str) -> (r: bool)
    ensures
        r == strings_view(v@).contains(d@),
{
    let ghost sv = strings_view(v@);
    let mut i: usize = 0;
    while i < v.len()
        invariant
            sv == strings_view(v@),
            i <= v@.len(),
            forall|j: int| 0 <= j < i ==> sv[j] != d@,
        decreases v.len() - i,
    {
        if str_eq(v[i].as_str(), d) {
            assert(sv[i as int] == d@);
            return true;
        }
        i = i + 1;
    }
    false
}

fn visited_remove(v: &mut Vec<String>, d: &str)
    ensures
        strings_view(final(v)@) == strings_view(old(v)@).remove_value(d@),
{
    let ghost sv = strings_view(v@);
    proof {
        sv.index_of_first_ensures(d@);
    }
    let mut i: usize = 0;
    while i < v.len()
        invariant
            sv == strings_view(v@),
            v@ == old(v)@,
            i <= v@.len(),
            forall|j: int| 0 <= j < i ==> sv[j] != d@,
        decreases v.len() - i,
    {
        if str_eq(v[i].as_str(), d) {
            assert(sv[i as int] == d@);
            assert(sv.index_of_first(d@) == Some(i as int)) by {
                sv.index_of_first_ensures(d@);
                let k = sv.index_of_first(d@)->0;
                if k < i {
                    assert(sv[k] != d@);
                } else if k > i {
                    assert(sv[i as int] != d@);
                }
            }
            v.remove(i);
            assert(strings_view(v@) =~= sv.remove(i as int));
            return;
        }
        i = i + 1;
    }
    assert(!sv.contains(d@));
}

/// Evaluates the exchanges of an `mx` mechanism, adding a child to `node` for each.
fn mx_children(
    answers: &Vec<DnsAnswer>,
    ip: IpAddress,
    cur: &mut Cursor,
    records: &Vec<(u16, String)>,
    q: Qualifier,
    cidr4: Option<u8>,
    cidr6: Option<u8>,
    node: &mut TreeNode,
) -> (r: Step<bool>)
    requires
        old(cur).pos <= answers@.len(),
    ensures
        ({
            let (f, s) = mx_loop_spec(
                answers_view(answers@),
                ip,
                cur_view(*old(cur)),
                crate::dns::mx_view(records@),
                0,
                q,
                cidr4,
                cidr6,
                old(node)@,
                false,
            );
            &&& s == cur_view(*final(cur))
            &&& steps_like(r, f, (final(node)@, step_value(r)))
        }),
        final(cur).pos >= old(cur).pos,
        final(cur).pos <= answers@.len(),
        final(cur).visited == old(cur).visited,
{
    let ghost av = answers_view(answers@);
    let ghost recs = crate::dns::mx_view(records@);
    let ghost whole = mx_loop_spec(av, ip, cur_view(*cur), recs, 0, q, cidr4, cidr6, node@, false);
    let ghost start_pos = cur.pos;
    let ghost start_visited = cur.visited;
    let mut any = false;
    let mut i: usize = 0;
    while i < records.len()
        invariant
            av == answers_view(answers@),
            recs == crate::dns::mx_view(records@),
            recs.len() == records@.len(),
            i <= records@.len(),
            start_pos <= cur.pos <= answers@.len(),
            start_pos == old(cur).pos,
            start_visited == old(cur).visited,
            whole == mx_loop_spec(av, ip, cur_view(*old(cur)), recs, 0, q, cidr4, cidr6, old(node)@, false),
            cur.visited == start_visited,
            whole == mx_loop_spec(av, ip, cur_view(*cur), recs, i as int, q, cidr4, cidr6, node@, any),
        decreases records.len() - i,
    {
        let exchange_name = records[i].1.as_str();
        assert(recs[i as int].1 == exchange_name@);
        match ip_lookup(answers, cur, exchange_name) {
            Step::Pending(qq) => {
                return Step::Pending(qq);
            },
            Step::Ready(res) => {
                let ips = match res {
                    Ok(ips) => ips,
                    Err(_) => Vec::new(),
                };
                let in_range = ip_in_resolved_ips(ip, ips.as_slice(), cidr4, cidr6);
                let child_authorized = in_range && q == Qualifier::Pass;
                let detail = ips_detail_string(&ips);
                let child = TreeNode::new(
                    exchange_name,
                    if child_authorized {
                        NodeStatus::Match
                    } else {
                        NodeStatus::NoMatch
                    },
                ).with_detail(detail.as_str());
                node.add_child(child);
                any = any || in_range;
            },
        }
        i = i + 1;
    }
    Step::Ready(any)
}

/// Whether one of `names` within `target` resolves back to `ip`.
fn ptr_search(
    answers: &Vec<DnsAnswer>,
    ip: IpAddress,
    cur: &mut Cursor,
    names: &Vec<String>,
    target: &str,
) -> (r: Step<bool>)
    requires
        old(cur).pos <= answers@.len(),
    ensures
        ({
            let (f, s) = ptr_loop_spec(
                answers_view(answers@),
                ip,
                cur_view(*old(cur)),
                strings_view(names@),
                0,
                target@,
            );
            &&& s == cur_view(*final(cur))
            &&& steps_like(r, f, step_value(r))
        }),
        final(cur).pos >= old(cur).pos,
        final(cur).pos <= answers@.len(),
        final(cur).visited == old(cur).visited,
{
    let ghost av = answers_view(answers@);
    let ghost nv = strings_view(names@);
    let ghost whole = ptr_loop_spec(av, ip, cur_view(*cur), nv, 0, target@);
    let ghost start_pos = cur.pos;
    let ghost start_visited = cur.visited;
    let dotted = concat2(".", target);
    let mut i: usize = 0;
    while i < names.len()
        invariant
            av == answers_view(answers@),
            dotted@ == "."@ + target@,
            nv == strings_view(names@),
            nv.len() == names@.len(),
            i <= names@.len(),
            start_pos <= cur.pos <= answers@.len(),
            start_pos == old(cur).pos,
            start_visited == old(cur).visited,
            whole == ptr_loop_spec(av, ip, cur_view(*old(cur)), nv, 0, target@),
            cur.visited == start_visited,
            whole == ptr_loop_spec(av, ip, cur_view(*cur), nv, i as int, target@),
        decreases names.len() - i,
    {
        let name = names[i].as_str();
        assert(nv[i as int] == name@);
        if str_eq(name, target) || ends_with_exec(name, dotted.as_str()) {
            match ip_lookup(answers, cur, name) {
                Step::Pending(qq) => {
                    return Step::Pending(qq);
                },
                Step::Ready(Ok(ips)) => {
                    if contains_ip(&ips, ip) {
                        return Step::Ready(true);
                    }
                },
                Step::Ready(Err(_)) => {},
            }
        }
        i = i + 1;
    }
    Step::Ready(false)
}


spec fn mech_step_view(x: (TreeNode, MechEval)) -> (TreeView, MechEval) {
    (x.0@, x.1)
}

spec fn found_view(o: Option<(bool, String)>) -> Option<(bool, Seq<char>)> {
    match o {
        Some((a, t)) => Some((a, t@)),
        None => None,
    }
}

spec fn resolve_out_view(x: SpfResult<(TreeNode, bool, Option<String>, Option<String>)>) -> Result<
    ResolveOut,
    ErrView,
> {
    match x {
        Ok((t, b, mm, mt)) => Ok((t@, b, opt_str(mm), opt_str(mt))),
        Err(e) => Err(e@),
    }
}

spec fn after_view(root: TreeView, x: SpfResult<(Option<bool>, Option<String>, Option<String>)>) -> Result<
    (TreeView, Option<bool>, Option<Seq<char>>, Option<Seq<char>>),
    ErrView,
> {
    match x {
        Ok((a, mm, mt)) => Ok((root, a, opt_str(mm), opt_str(mt))),
        Err(e) => Err(e@),
    }
}

fn eval_mech(
    answers: &Vec<DnsAnswer>,
    ip: IpAddress,
    cur: &mut Cursor,
    m: &Mechanism,
    current: &str,
    Ghost(fuel): Ghost<nat>,
) -> (r: Step<(TreeNode, MechEval)>)
    requires
        old(cur).pos <= answers@.len(),
        fuel >= answers@.len() - old(cur).pos + 1,
    ensures
        ({
            let (f, s) = eval_mech_spec(answers_view(answers@), ip, cur_view(*old(cur)), m@, current@, fuel);
            &&& s == cur_view(*final(cur))
            &&& steps_like(r, f, mech_step_view(step_value(r)))
        }),
        final(cur).pos >= old(cur).pos,
        final(cur).pos <= answers@.len(),
    decreases fuel, 1int, 0int,
{
    let text = m.to_string();
    match m {
        Mechanism::All { qualifier } => {
            let authorized = *qualifier == Qualifier::Pass;
            let e = if authorized {
                MechEval::Authorized
            } else {
                MechEval::Denied
            };
            let mut node = TreeNode::new(
                text.as_str(),
                if authorized {
                    NodeStatus::Match
                } else {
                    NodeStatus::NoMatch
                },
            );
            if authorized {
                node.set_match_point();
            }
            Step::Ready((node, e))
        },
        Mechanism::Ip4 { qualifier, network } => {
            let in_range = match ip {
                IpAddress::V4(a) => network.contains(a),
                IpAddress::V6(_) => false,
            };
            let e = if in_range {
                if *qualifier == Qualifier::Pass {
                    MechEval::Authorized
                } else {
                    MechEval::Denied
                }
            } else {
                MechEval::Skip
            };
            let mut node = TreeNode::new(
                text.as_str(),
                match e {
                    MechEval::Authorized => NodeStatus::Match,
                    _ => NodeStatus::NoMatch,
                },
            );
            if e.is_authorized() {
                node.set_match_point();
            }
            Step::Ready((node, e))
        },
        Mechanism::Ip6 { qualifier, network } => {
            let in_range = match ip {
                IpAddress::V6(a) => network.contains(a),
                IpAddress::V4(_) => false,
            };
            let e = if in_range {
                if *qualifier == Qualifier::Pass {
                    MechEval::Authorized
                } else {
                    MechEval::Denied
                }
            } else {
                MechEval::Skip
            };
            let mut node = TreeNode::new(
                text.as_str(),
                match e {
                    MechEval::Authorized => NodeStatus::Match,
                    _ => NodeStatus::NoMatch,
                },
            );
            if e.is_authorized() {
                node.set_match_point();
            }
            Step::Ready((node, e))
        },
        Mechanism::A { qualifier, domain, cidr4, cidr6 } => {
            let target: &str = match domain {
                Some(d) => d.as_str(),
                None => current,
            };
            match ip_lookup(answers, cur, target) {
                Step::Pending(q) => Step::Pending(q),
                Step::Ready(res) => {
                    let ips = match res {
                        Ok(ips) => ips,
                        Err(_) => Vec::new(),
                    };
                    let in_range = ip_in_resolved_ips(ip, ips.as_slice(), *cidr4, *cidr6);
                    let e = if in_range {
                        if *qualifier == Qualifier::Pass {
                            MechEval::Authorized
                        } else {
                            MechEval::Denied
                        }
                    } else {
                        MechEval::Skip
                    };
                    let detail = ips_detail_string(&ips);
                    let mut node = TreeNode::new(
                        text.as_str(),
                        match e {
                            MechEval::Authorized => NodeStatus::Match,
                            _ => NodeStatus::NoMatch,
                        },
                    ).with_detail(detail.as_str());
                    if e.is_authorized() {
                        node.set_match_point();
                    }
                    Step::Ready((node, e))
                },
            }
        },
        Mechanism::Mx { qualifier, domain, cidr4, cidr6 } => {
            let target: &str = match domain {
                Some(d) => d.as_str(),
                None => current,
            };
            match mx_lookup(answers, cur, target) {
                Step::Pending(q) => Step::Pending(q),
                Step::Ready(res) => {
                    let records = match res {
                        Ok(records) => records,
                        Err(_) => Vec::new(),
                    };
                    assert(crate::dns::mx_view(records@) == match mx_res_view(res) {
                        Ok(recs) => recs,
                        Err(_) => Seq::<(u16, Seq<char>)>::empty(),
                    });
                    let mut mx_node = TreeNode::new(text.as_str(), NodeStatus::Info);
                    match mx_children(answers, ip, cur, &records, *qualifier, *cidr4, *cidr6, &mut mx_node) {
                        Step::Pending(q) => Step::Pending(q),
                        Step::Ready(any_in_range) => {
                            let e = if any_in_range {
                                if *qualifier == Qualifier::Pass {
                                    MechEval::Authorized
                                } else {
                                    MechEval::Denied
                                }
                            } else {
                                MechEval::Skip
                            };
                            if e.is_authorized() {
                                mx_node.status = NodeStatus::Match;
                                mx_node.set_match_point();
                            } else if records.len() == 0 {
                                mx_node.status = NodeStatus::Warning;
                                mx_node.detail = Some(String::from_str("无 MX 记录"));
                            } else {
                                mx_node.status = NodeStatus::NoMatch;
                            }
                            Step::Ready((mx_node, e))
                        },
                    }
                },
            }
        },
        Mechanism::Include { qualifier, domain } => {
            let mut include_node = TreeNode::new(text.as_str(), NodeStatus::Info);
            match resolve(answers, ip, cur, domain.as_str(), Ghost(fuel)) {
                Step::Pending(q) => Step::Pending(q),
                Step::Ready(Ok((inner_tree, inner_authorized, _inner_mech, _inner_txt))) => {
                    let e = if inner_authorized {
                        if *qualifier == Qualifier::Pass {
                            MechEval::Authorized
                        } else {
                            MechEval::Denied
                        }
                    } else {
                        MechEval::Skip
                    };
                    include_node.status = match e {
                        MechEval::Authorized => NodeStatus::Match,
                        _ => NodeStatus::NoMatch,
                    };
                    if e.is_authorized() {
                        include_node.set_match_point();
                    }
                    include_node.add_child(inner_tree);
                    Step::Ready((include_node, e))
                },
                Step::Ready(Err(err)) => {
                    include_node.status = NodeStatus::Error;
                    let msg = err.message();
                    include_node.detail = Some(concat2("错误: ", msg.as_str()));
                    Step::Ready((include_node, MechEval::Skip))
                },
            }
        },
        Mechanism::Ptr { qualifier, domain } => {
            let target: &str = match domain {
                Some(d) => d.as_str(),
                None => current,
            };
            let mut node = TreeNode::new(text.as_str(), NodeStatus::Warning).with_detail(
                "⚠ ptr 机制已废弃 (RFC 7208 §5.5)",
            );
            match ptr_lookup(answers, cur, ip) {
                Step::Pending(q) => Step::Pending(q),
                Step::Ready(Err(_)) => {
                    node.status = NodeStatus::NoMatch;
                    Step::Ready((node, MechEval::Skip))
                },
                Step::Ready(Ok(ptr_names)) => {
                    match ptr_search(answers, ip, cur, &ptr_names, target) {
                        Step::Pending(q) => Step::Pending(q),
                        Step::Ready(in_range) => {
                            let e = if in_range {
                                if *qualifier == Qualifier::Pass {
                                    MechEval::Authorized
                                } else {
                                    MechEval::Denied
                                }
                            } else {
                                MechEval::Skip
                            };
                            node.status = match e {
                                MechEval::Authorized => NodeStatus::Match,
                                _ => NodeStatus::NoMatch,
                            };
                            if e.is_authorized() {
                                node.set_match_point();
                            }
                            Step::Ready((node, e))
                        },
                    }
                },
            }
        },
        Mechanism::Exists { qualifier, domain } => {
            match ip_lookup(answers, cur, domain.as_str()) {
                Step::Pending(q) => Step::Pending(q),
                Step::Ready(res) => {
                    let exists = match res {
                        Ok(ips) => ips.len() > 0,
                        Err(_) => false,
                    };
                    let e = if exists {
                        if *qualifier == Qualifier::Pass {
                            MechEval::Authorized
                        } else {
                            MechEval::Denied
                        }
                    } else {
                        MechEval::Skip
                    };
                    let mut node = TreeNode::new(
                        text.as_str(),
                        match e {
                            MechEval::Authorized => NodeStatus::Match,
                            _ => NodeStatus::NoMatch,
                        },
                    );
                    if e.is_authorized() {
                        node.set_match_point();
                    }
                    Step::Ready((node, e))
                },
            }
        },
    }
}

fn run_mechs(
    answers: &Vec<DnsAnswer>,
    ip: IpAddress,
    cur: &mut Cursor,
    mechs: &Vec<Mechanism>,
    domain: &str,
    Ghost(fuel): Ghost<nat>,
    root: &mut TreeNode,
) -> (r: Step<Option<(bool, String)>>)
    requires
        old(cur).pos <= answers@.len(),
        fuel >= answers@.len() - old(cur).pos + 1,
    ensures
        ({
            let (f, s) = mechs_spec(
                answers_view(answers@),
                ip,
                cur_view(*old(cur)),
                crate::spf::mechs_view(mechs@),
                0,
                domain@,
                fuel,
                old(root)@,
            );
            &&& s == cur_view(*final(cur))
            &&& steps_like(r, f, (final(root)@, found_view(step_value(r))))
        }),
        final(cur).pos >= old(cur).pos,
        final(cur).pos <= answers@.len(),
    decreases fuel, 2int, 0int,
{
    let ghost av = answers_view(answers@);
    let ghost mv = crate::spf::mechs_view(mechs@);
    let ghost whole = mechs_spec(av, ip, cur_view(*cur), mv, 0, domain@, fuel, root@);
    let mut i: usize = 0;
    while i < mechs.len()
        invariant
            av == answers_view(answers@),
            mv == crate::spf::mechs_view(mechs@),
            mv.len() == mechs@.len(),
            i <= mechs@.len(),
            old(cur).pos <= cur.pos <= answers@.len(),
            fuel >= answers@.len() - old(cur).pos + 1,
            whole == mechs_spec(av, ip, cur_view(*old(cur)), mv, 0, domain@, fuel, old(root)@),
            whole == mechs_spec(av, ip, cur_view(*cur), mv, i as int, domain@, fuel, root@),
        decreases mechs.len() - i,
    {
        let m = &mechs[i];
        assert(mv[i as int] == m@);
        match eval_mech(answers, ip, cur, m, domain, Ghost(fuel)) {
            Step::Pending(q) => {
                return Step::Pending(q);
            },
            Step::Ready((child, e)) => {
                root.add_child(child);
                if e.is_terminal() {
                    let t = m.to_string();
                    return Step::Ready(Some((e.is_authorized(), t)));
                }
            },
        }
        i = i + 1;
    }
    Step::Ready(None)
}

fn add_exp_nodes(root: &mut TreeNode, mods: &Vec<Modifier>)
    ensures
        final(root)@ == exp_nodes(old(root)@, crate::spf::mods_view(mods@), 0),
{
    let ghost mv = crate::spf::mods_view(mods@);
    let mut i: usize = 0;
    while i < mods.len()
        invariant
            mv == crate::spf::mods_view(mods@),
            mv.len() == mods@.len(),
            i <= mods@.len(),
            exp_nodes(old(root)@, mv, 0) == exp_nodes(root@, mv, i as int),
        decreases mods.len() - i,
    {
        assert(mv[i as int] == mods@[i as int]@);
        match &mods[i] {
            Modifier::Exp { domain } => {
                let label = concat2("exp=", domain.as_str());
                let exp_node = TreeNode::new(label.as_str(), NodeStatus::Info).with_detail(
                    "解释域名（不影响 SPF 结果）",
                );
                root.add_child(exp_node);
            },
            Modifier::Redirect { .. } => {},
        }
        i = i + 1;
    }
}

fn after_mechs(
    answers: &Vec<DnsAnswer>,
    ip: IpAddress,
    cur: &mut Cursor,
    record: &SpfRecord,
    spf_text: &str,
    root: &mut TreeNode,
    found: Option<(bool, String)>,
    Ghost(fuel): Ghost<nat>,
) -> (r: Step<SpfResult<(Option<bool>, Option<String>, Option<String>)>>)
    requires
        old(cur).pos <= answers@.len(),
        fuel >= answers@.len() - old(cur).pos + 1,
    ensures
        ({
            let (f, s) = after_mechs_spec(
                answers_view(answers@),
                ip,
                cur_view(*old(cur)),
                record@,
                spf_text@,
                old(root)@,
                found_view(found),
                fuel,
            );
            &&& s == cur_view(*final(cur))
            &&& steps_like(r, f, after_view(final(root)@, step_value(r)))
        }),
        final(cur).pos >= old(cur).pos,
        final(cur).pos <= answers@.len(),
    decreases fuel, 0int, 1int,
{
    if found.is_none() && !record.has_all_mechanism() {
        if let Some(redirect_domain) = record.redirect_domain() {
            match resolve(answers, ip, cur, redirect_domain, Ghost(fuel)) {
                Step::Pending(q) => {
                    return Step::Pending(q);
                },
                Step::Ready(Err(e)) => {
                    return Step::Ready(Err(e));
                },
                Step::Ready(Ok((redirect_tree, r_auth, r_mech, r_txt))) => {
                    let label = concat2("redirect=", redirect_domain);
                    let mut redirect_node = TreeNode::new(
                        label.as_str(),
                        if r_auth {
                            NodeStatus::Match
                        } else {
                            NodeStatus::NoMatch
                        },
                    );
                    redirect_node.add_child(redirect_tree);
                    root.add_child(redirect_node);
                    return Step::Ready(Ok((Some(r_auth), r_mech, r_txt)));
                },
            }
        }
    }
    match found {
        Some((a, t)) => Step::Ready(Ok((Some(a), Some(t), Some(String::from_str(spf_text))))),
        None => Step::Ready(Ok((None, None, None))),
    }
}

fn resolve(
    answers: &Vec<DnsAnswer>,
    ip: IpAddress,
    cur: &mut Cursor,
    domain: &str,
    Ghost(fuel): Ghost<nat>,
) -> (r: Step<SpfResult<(TreeNode, bool, Option<String>, Option<String>)>>)
    requires
        old(cur).pos <= answers@.len(),
        fuel >= answers@.len() - old(cur).pos + 1,
    ensures
        ({
            let (f, s) = resolve_spec(answers_view(answers@), ip, cur_view(*old(cur)), domain@, fuel);
            &&& s == cur_view(*final(cur))
            &&& steps_like(r, f, resolve_out_view(step_value(r)))
        }),
        final(cur).pos >= old(cur).pos,
        final(cur).pos <= answers@.len(),
    decreases fuel, 0int, 0int,
{
    if visited_contains(&cur.visited, domain) {
        let mut chain: Vec<String> = Vec::new();
        let mut k: usize = 0;
        while k < cur.visited.len()
            invariant
                k <= cur.visited@.len(),
                chain@.len() == k,
                forall|j: int| 0 <= j < k ==> #[trigger] chain@[j]@ == cur.visited@[j]@,
            decreases cur.visited.len() - k,
        {
            chain.push(cur.visited[k].clone());
            k = k + 1;
        }
        assert(strings_view(chain@) =~= strings_view(cur.visited@));
        return Step::Ready(Err(SpfError::CircularReference { chain }));
    }
    let ghost st_entry = cur_view(*cur);
    cur.visited.push(String::from_str(domain));
    assert(strings_view(cur.visited@) =~= st_entry.visited.push(domain@));
    let spf_texts_found = match txt_lookup(answers, cur, domain) {
        Step::Pending(q) => {
            return Step::Pending(q);
        },
        Step::Ready(Err(e)) => {
            visited_remove(&mut cur.visited, domain);
            return Step::Ready(Err(e));
        },
        Step::Ready(Ok(texts)) => texts,
    };
    if spf_texts_found.len() == 0 {
        visited_remove(&mut cur.visited, domain);
        return Step::Ready(Err(SpfError::NoSpfRecord(String::from_str(domain))));
    }
    if spf_texts_found.len() > 1 {
        visited_remove(&mut cur.visited, domain);
        return Step::Ready(Err(SpfError::MultipleSpfRecords(String::from_str(domain))));
    }
    let spf_text = spf_texts_found[0].as_str();
    let record = match parse_spf(spf_text) {
        Ok(record) => record,
        Err(e) => {
            let reason = e.message();
            visited_remove(&mut cur.visited, domain);
            return Step::Ready(
                Err(SpfError::MalformedSpf { domain: String::from_str(domain), reason }),
            );
        },
    };
    let mut root = TreeNode::new(domain, NodeStatus::Info).with_detail(spf_text);
    let found = match run_mechs(answers, ip, cur, &record.mechanisms, domain, Ghost((fuel - 1) as nat), &mut root) {
        Step::Pending(q) => {
            return Step::Pending(q);
        },
        Step::Ready(found) => found,
    };
    let (final_authorized, matched_mechanism, matched_txt) = match after_mechs(
        answers,
        ip,
        cur,
        &record,
        spf_text,
        &mut root,
        found,
        Ghost((fuel - 1) as nat),
    ) {
        Step::Pending(q) => {
            return Step::Pending(q);
        },
        Step::Ready(Err(e)) => {
            visited_remove(&mut cur.visited, domain);
            return Step::Ready(Err(e));
        },
        Step::Ready(Ok(out)) => out,
    };
    add_exp_nodes(&mut root, &record.modifiers);
    visited_remove(&mut cur.visited, domain);
    let authorized = match final_authorized {
        Some(a) => a,
        None => false,
    };
    Step::Ready(Ok((root, authorized, matched_mechanism, matched_txt)))
}


/// The outcome of a complete SPF check.
pub struct SpfCheckResult {
    pub domain: String,
    pub check_ip: IpAddress,
    pub mx_records: Vec<(u16, String, Vec<IpAddress>)>,
    pub spf_tree: TreeNode,
    pub matched: bool,
    pub matched_mechanism: Option<String>,
    pub matched_txt: Option<String>,
    pub dns_lookups: u32,
}

/// The mathematical content of an [`SpfCheckResult`].
pub struct CheckView {
    pub domain: Seq<char>,
    pub check_ip: IpAddress,
    pub mx_records: Seq<(u16, Seq<char>, Seq<IpAddress>)>,
    pub spf_tree: TreeView,
    pub matched: bool,
    pub matched_mechanism: Option<Seq<char>>,
    pub matched_txt: Option<Seq<char>>,
    pub dns_lookups: u32,
}

/// Views of the MX records shown above the tree.
pub open spec fn mx_display_view(v: Seq<(u16, String, Vec<IpAddress>)>) -> Seq<(u16, Seq<char>, Seq<IpAddress>)> {
    v.map_values(|r: (u16, String, Vec<IpAddress>)| (r.0, r.1@, r.2@))
}

impl View for SpfCheckResult {
    type V = CheckView;

    open spec fn view(&self) -> CheckView {
        CheckView {
            domain: self.domain@,
            check_ip: self.check_ip,
            mx_records: mx_display_view(self.mx_records@),
            spf_tree: self.spf_tree@,
            matched: self.matched,
            matched_mechanism: opt_str(self.matched_mechanism),
            matched_txt: opt_str(self.matched_txt),
            dns_lookups: self.dns_lookups,
        }
    }
}

/// Where a check stands after reading the answers given so far.
pub enum CheckProgress {
    /// The SPF check is complete.
    Done(SpfResult<SpfCheckResult>),
    /// The SPF check needs the answer to this lookup next.
    NeedsLookup(DnsQuery),
}

/// The mathematical content of a [`CheckProgress`].
pub enum ProgressView {
    Done(Result<CheckView, ErrView>),
    NeedsLookup(QueryView),
}

impl View for CheckProgress {
    type V = ProgressView;

    open spec fn view(&self) -> ProgressView {
        match self {
            CheckProgress::Done(Ok(r)) => ProgressView::Done(Ok(r@)),
            CheckProgress::Done(Err(e)) => ProgressView::Done(Err(e@)),
            CheckProgress::NeedsLookup(q) => ProgressView::NeedsLookup(q@),
        }
    }
}

/// Resolves the addresses of the exchanges `recs[i..]` (uncounted lookups), for display.
pub open spec fn mx_ips_spec(
    ans: Seq<AnswerView>,
    st: EvalState,
    recs: Seq<(u16, Seq<char>)>,
    i: int,
    acc: Seq<(u16, Seq<char>, Seq<IpAddress>)>,
) -> (Flow<Seq<(u16, Seq<char>, Seq<IpAddress>)>>, EvalState)
    decreases recs.len() - i,
{
    if i < 0 || i >= recs.len() {
        (Flow::Ready(acc), st)
    } else {
        let (r, st1) = ip_nocount_spec(ans, st, recs[i].1);
        match r {
            Flow::Pending(q) => (Flow::Pending(q), st1),
            Flow::Ready(ips) => mx_ips_spec(ans, st1, recs, i + 1, acc.push((recs[i].0, recs[i].1, ips))),
        }
    }
}

/// The SPF check of `domain` for `ip` over the answers `ans`: the MX records of the
/// (lowercased) domain with their addresses, for display; then the SPF resolution,
/// with the number of counted lookups.
pub open spec fn check_spec(ans: Seq<AnswerView>, ip: IpAddress, domain: Seq<char>) -> ProgressView {
    let d = crate::text::lowercase(domain);
    let st0 = EvalState { pos: 0, count: 0, visited: Seq::empty() };
    let (r, st1) = mx_display_spec(ans, st0, d);
    match r {
        Flow::Pending(q) => ProgressView::NeedsLookup(q),
        Flow::Ready(mx_raw) => {
            let (r2, st2) = mx_ips_spec(ans, st1, mx_raw, 0, Seq::empty());
            match r2 {
                Flow::Pending(q) => ProgressView::NeedsLookup(q),
                Flow::Ready(mx_records) => {
                    let (r3, st3) = resolve_spec(ans, ip, st2, d, (ans.len() + 1) as nat);
                    match r3 {
                        Flow::Pending(q) => ProgressView::NeedsLookup(q),
                        Flow::Ready(Err(e)) => ProgressView::Done(Err(e)),
                        Flow::Ready(Ok((tree, matched, mm, mt))) => ProgressView::Done(
                            Ok(
                                CheckView {
                                    domain: d,
                                    check_ip: ip,
                                    mx_records,
                                    spf_tree: tree,
                                    matched,
                                    matched_mechanism: mm,
                                    matched_txt: mt,
                                    dns_lookups: st3.count,
                                },
                            ),
                        ),
                    }
                },
            }
        },
    }
}

/// The SPF checker for one IP address.
pub struct SpfResolver {
    check_ip: IpAddress,
    use_color: bool,
}

impl SpfResolver {
    /// A checker for `check_ip`.
    pub fn new(check_ip: IpAddress, use_color: bool) -> (r: SpfResolver)
        ensures
            r.spec_check_ip() == check_ip,
            r.spec_use_color() == use_color,
    {
        SpfResolver { check_ip, use_color }
    }

    /// The IP address being checked.
    pub closed spec fn spec_check_ip(&self) -> IpAddress {
        self.check_ip
    }

    /// Whether output is meant to be coloured.
    pub closed spec fn spec_use_color(&self) -> bool {
        self.use_color
    }

    /// Runs the SPF check of `domain` over `answers`, the answers to the lookups
    /// it asked for so far, in order; it either completes or asks for the next lookup.
    pub fn check(&self, domain: &str, answers: &Vec<DnsAnswer>) -> (r: CheckProgress)
        ensures
            r@ == check_spec(answers_view(answers@), self.spec_check_ip(), domain@),
    {
        let ghost av = answers_view(answers@);
        let d = crate::text::to_lower(domain);
        let mut cur = Cursor { pos: 0, count: 0, visited: Vec::new() };
        assert(cur_view(cur) == EvalState { pos: 0, count: 0, visited: Seq::<Seq<char>>::empty() }) by {
            assert(strings_view(cur.visited@) =~= Seq::<Seq<char>>::empty());
        }
        let mx_raw = match mx_lookup_display(answers, &mut cur, d.as_str()) {
            Step::Pending(q) => {
                return CheckProgress::NeedsLookup(q);
            },
            Step::Ready(v) => v,
        };
        let ghost raw_view = crate::dns::mx_view(mx_raw@);
        let ghost st1 = cur_view(cur);
        let ghost whole = mx_ips_spec(av, cur_view(cur), raw_view, 0, Seq::empty());
        assert(mx_display_spec(av, EvalState { pos: 0, count: 0, visited: Seq::empty() }, d@) == (
        Flow::Ready(raw_view), st1));
        let mut mx_records: Vec<(u16, String, Vec<IpAddress>)> = Vec::new();
        let mut i: usize = 0;
        assert(mx_display_view(mx_records@) =~= Seq::<(u16, Seq<char>, Seq<IpAddress>)>::empty());
        while i < mx_raw.len()
            invariant
                av == answers_view(answers@),
                raw_view == crate::dns::mx_view(mx_raw@),
                raw_view.len() == mx_raw@.len(),
                i <= mx_raw@.len(),
                cur.pos <= answers@.len(),
                d@ == crate::text::lowercase(domain@),
                mx_display_spec(av, EvalState { pos: 0, count: 0, visited: Seq::empty() }, d@) == (
                Flow::Ready(raw_view), st1),
                whole == mx_ips_spec(av, st1, raw_view, 0, Seq::empty()),
                whole == mx_ips_spec(av, cur_view(cur), raw_view, i as int, mx_display_view(mx_records@)),
            decreases mx_raw.len() - i,
        {
            let exchange = mx_raw[i].1.as_str();
            match ip_lookup_no_count(answers, &mut cur, exchange) {
                Step::Pending(q) => {
                    return CheckProgress::NeedsLookup(q);
                },
                Step::Ready(ips) => {
                    let ghost before = mx_display_view(mx_records@);
                    mx_records.push((mx_raw[i].0, String::from_str(exchange), ips));
                    assert(mx_display_view(mx_records@) =~= before.push((raw_view[i as int].0, raw_view[i as int].1, ips@)));
                },
            }
            i = i + 1;
        }
        match resolve(answers, self.check_ip, &mut cur, d.as_str(), Ghost((answers.len() + 1) as nat)) {
            Step::Pending(q) => CheckProgress::NeedsLookup(q),
            Step::Ready(Err(e)) => CheckProgress::Done(Err(e)),
            Step::Ready(Ok((spf_tree, matched, matched_mechanism, matched_txt))) => CheckProgress::Done(
                Ok(
                    SpfCheckResult {
                        domain: d,
                        check_ip: self.check_ip,
                        mx_records,
                        spf_tree,
                        matched,
                        matched_mechanism,
                        matched_txt,
                        dns_lookups: cur.count,
                    },
                ),
            ),
        }
    }
}


/// An `all` mechanism always matches: `+all` authorizes, `-all`, `~all` and `?all`
/// deny; it makes no lookup.
pub proof fn lemma_all_decides(
    ans: Seq<AnswerView>,
    ip: IpAddress,
    st: EvalState,
    q: Qualifier,
    current: Seq<char>,
    fuel: nat,
)
    ensures
        ({
            let (f, s) = eval_mech_spec(ans, ip, st, MechView::All { qualifier: q }, current, fuel);
            &&& s == st
            &&& f matches Flow::Ready((_, e))
            &&& e == (if q == Qualifier::Pass {
                MechEval::Authorized
            } else {
                MechEval::Denied
            })
        }),
{
}

/// `include` (RFC 7208 §5.2) matches only when the included record authorizes the
/// IP; then the include's own qualifier decides. An included record that does not
/// authorize, or that fails to resolve, makes the include a non-match.
pub proof fn lemma_include_semantics(
    ans: Seq<AnswerView>,
    ip: IpAddress,
    st: EvalState,
    q: Qualifier,
    domain: Seq<char>,
    current: Seq<char>,
    fuel: nat,
)
    ensures
        ({
            let (f, s) = eval_mech_spec(ans, ip, st, MechView::Include { qualifier: q, domain }, current, fuel);
            let (g, t) = resolve_spec(ans, ip, st, domain, fuel);
            &&& s == t
            &&& (match g {
                Flow::Pending(x) => f == Flow::<(TreeView, MechEval)>::Pending(x),
                Flow::Ready(Ok(out)) => f matches Flow::Ready((_, e)) && e == (if !out.1 {
                    MechEval::Skip
                } else if q == Qualifier::Pass {
                    MechEval::Authorized
                } else {
                    MechEval::Denied
                }),
                Flow::Ready(Err(_)) => f matches Flow::Ready((_, e)) && e is Skip,
            })
        }),
{
}

/// Mechanisms are evaluated in order and the first terminal one ends the evaluation:
/// the record's outcome is that mechanism's, named by its text.
pub proof fn lemma_first_terminal_decides(
    ans: Seq<AnswerView>,
    ip: IpAddress,
    st: EvalState,
    mechs: Seq<MechView>,
    i: int,
    domain: Seq<char>,
    fuel: nat,
    root: TreeView,
)
    requires
        0 <= i < mechs.len(),
        eval_mech_spec(ans, ip, st, mechs[i], domain, fuel).0 matches Flow::Ready((_, e)) && !(e is Skip),
    ensures
        ({
            let (f, s) = eval_mech_spec(ans, ip, st, mechs[i], domain, fuel);
            let e = f->Ready_0.1;
            mechs_spec(ans, ip, st, mechs, i, domain, fuel, root) == (
                Flow::Ready((add_child_v(root, f->Ready_0.0), Some((e is Authorized, mech_text(mechs[i]))))),
                s,
            )
        }),
{
}

/// `redirect=` (RFC 7208 §6.1) is followed only when no mechanism was terminal and
/// the record has no `all`: otherwise no lookup is made and the outcome is that of
/// the mechanisms.
pub proof fn lemma_redirect_ignored(
    ans: Seq<AnswerView>,
    ip: IpAddress,
    st: EvalState,
    record: RecordView,
    spf_text: Seq<char>,
    root: TreeView,
    found: Option<(bool, Seq<char>)>,
    fuel: nat,
)
    requires
        found is Some || has_all(record),
    ensures
        after_mechs_spec(ans, ip, st, record, spf_text, root, found, fuel) == (
            Flow::Ready(
                Ok::<(TreeView, Option<bool>, Option<Seq<char>>, Option<Seq<char>>), ErrView>(
                    match found {
                        Some((a, t)) => (root, Some(a), Some(t), Some(spf_text)),
                        None => (root, None, None, None),
                    },
                ),
            ),
            st,
        ),
{
}

/// A domain already on the include chain is a circular reference: resolving it
/// fails at once, naming the chain, without any lookup.
pub proof fn lemma_circular_reference(ans: Seq<AnswerView>, ip: IpAddress, st: EvalState, domain: Seq<char>, fuel: nat)
    requires
        fuel > 0,
        st.visited.contains(domain),
    ensures
        resolve_spec(ans, ip, st, domain, fuel) == (
            Flow::Ready(Err::<ResolveOut, ErrView>(ErrView::CircularReference { chain: st.visited })),
            st,
        ),
{
}

/// RFC 7208 §4.6.1: once the counter would pass 10, a counted lookup (TXT, MX,
/// A/AAAA, PTR) fails with `DnsLookupLimitExceeded` and reads no answer.
pub proof fn lemma_lookup_limit(ans: Seq<AnswerView>, st: EvalState, domain: Seq<char>, ip: IpAddress)
    requires
        next_count(st.count) > MAX_DNS_LOOKUPS,
    ensures
        ({
            let st2 = EvalState { count: next_count(st.count), ..st };
            let err = ErrView::DnsLookupLimitExceeded { count: next_count(st.count), domain };
            &&& txt_lookup_spec(ans, st, domain) == (Flow::Ready(Err::<Seq<Seq<char>>, ErrView>(err)), st2)
            &&& mx_lookup_spec(ans, st, domain) == (Flow::Ready(Err::<Seq<(u16, Seq<char>)>, ErrView>(err)), st2)
            &&& ip_lookup_spec(ans, st, domain) == (Flow::Ready(Err::<Seq<IpAddress>, ErrView>(err)), st2)
            &&& ptr_lookup_spec(ans, st, ip).0 is Ready
            &&& ptr_lookup_spec(ans, st, ip).1 == st2
        }),
{
}

/// The lookups that only serve the display of MX records are not counted.
pub proof fn lemma_display_lookups_uncounted(ans: Seq<AnswerView>, st: EvalState, domain: Seq<char>)
    ensures
        mx_display_spec(ans, st, domain).1.count == st.count,
        ip_nocount_spec(ans, st, domain).1.count == st.count,
{
}

/// A counted lookup that reads an answer happens only while the counter is within the limit.
pub proof fn lemma_counted_reads_within_limit(ans: Seq<AnswerView>, st: EvalState, domain: Seq<char>)
    requires
        ip_lookup_spec(ans, st, domain).1.pos > st.pos || txt_lookup_spec(ans, st, domain).1.pos > st.pos
            || mx_lookup_spec(ans, st, domain).1.pos > st.pos,
    ensures
        next_count(st.count) <= MAX_DNS_LOOKUPS,
{
}

/// An authorizing resolution always names the mechanism and the TXT record that matched.
pub proof fn lemma_authorized_names_match(ans: Seq<AnswerView>, ip: IpAddress, st: EvalState, domain: Seq<char>, fuel: nat)
    ensures
        resolve_spec(ans, ip, st, domain, fuel).0 matches Flow::Ready(Ok(out)) ==> (out.1 ==> out.2 is Some
            && out.3 is Some),
    decreases fuel,
{
    if fuel > 0 && !st.visited.contains(domain) {
        let st0 = EvalState { visited: st.visited.push(domain), ..st };
        let (r, st1) = txt_lookup_spec(ans, st0, domain);
        if let Flow::Ready(Ok(texts)) = r {
            if texts.len() == 1 {
                if let Ok(record) = spf_spec(texts[0]) {
                    let root = with_detail_v(leaf(domain, NodeStatus::Info), texts[0]);
                    let (r2, st2) = mechs_spec(ans, ip, st1, record.mechanisms, 0, domain, (fuel - 1) as nat, root);
                    if let Flow::Ready((root2, found)) = r2 {
                        if found is None && !has_all(record) && redirect_of(record) is Some {
                            lemma_authorized_names_match(ans, ip, st2, redirect_of(record)->0, (fuel - 1) as nat);
                        }
                    }
                }
            }
        }
    }
}

proof fn lemma_push_remove(v: Seq<Seq<char>>, d: Seq<char>)
    requires
        !v.contains(d),
    ensures
        v.push(d).remove_value(d) == v,
{
    let w = v.push(d);
    w.index_of_first_ensures(d);
    assert(w[v.len() as int] == d);
    let i = w.index_of_first(d).unwrap();
    if i < v.len() {
        assert(v[i] == d);
    }
    assert(w.remove(v.len() as int) =~= v);
}

proof fn lemma_mx_loop_keeps_chain(
    ans: Seq<AnswerView>,
    ip: IpAddress,
    st: EvalState,
    records: Seq<(u16, Seq<char>)>,
    i: int,
    q: Qualifier,
    cidr4: Option<u8>,
    cidr6: Option<u8>,
    node: TreeView,
    any: bool,
)
    ensures
        mx_loop_spec(ans, ip, st, records, i, q, cidr4, cidr6, node, any).1.visited == st.visited,
    decreases records.len() - i,
{
    if 0 <= i < records.len() {
        let (r, st1) = ip_lookup_spec(ans, st, records[i].1);
        if let Flow::Ready(res) = r {
            let ips = match res {
                Ok(ips) => ips,
                Err(_) => Seq::empty(),
            };
            let in_range = any_resolved_match(ip, ips, cidr4, cidr6);
            let child_authorized = in_range && q == Qualifier::Pass;
            let child = with_detail_v(
                leaf(
                    records[i].1,
                    if child_authorized {
                        NodeStatus::Match
                    } else {
                        NodeStatus::NoMatch
                    },
                ),
                ips_detail(ips),
            );
            lemma_mx_loop_keeps_chain(ans, ip, st1, records, i + 1, q, cidr4, cidr6, add_child_v(node, child), any || in_range);
        }
    }
}

proof fn lemma_ptr_loop_keeps_chain(
    ans: Seq<AnswerView>,
    ip: IpAddress,
    st: EvalState,
    names: Seq<Seq<char>>,
    i: int,
    target: Seq<char>,
)
    ensures
        ptr_loop_spec(ans, ip, st, names, i, target).1.visited == st.visited,
    decreases names.len() - i,
{
    if 0 <= i < names.len() {
        let (r, st1) = ip_lookup_spec(ans, st, names[i]);
        lemma_ptr_loop_keeps_chain(ans, ip, st1, names, i + 1, target);
        lemma_ptr_loop_keeps_chain(ans, ip, st, names, i + 1, target);
    }
}

proof fn lemma_eval_keeps_chain(
    ans: Seq<AnswerView>,
    ip: IpAddress,
    st: EvalState,
    m: MechView,
    current: Seq<char>,
    fuel: nat,
)
    requires
        eval_mech_spec(ans, ip, st, m, current, fuel).0 is Ready,
    ensures
        eval_mech_spec(ans, ip, st, m, current, fuel).1.visited == st.visited,
    decreases fuel, 1int, 0int,
{
    match m {
        MechView::Mx { qualifier, domain, cidr4, cidr6 } => {
            let target = match domain {
                Some(d) => d,
                None => current,
            };
            let (r, st1) = mx_lookup_spec(ans, st, target);
            if let Flow::Ready(res) = r {
                let records = match res {
                    Ok(recs) => recs,
                    Err(_) => Seq::empty(),
                };
                lemma_mx_loop_keeps_chain(
                    ans,
                    ip,
                    st1,
                    records,
                    0,
                    qualifier,
                    cidr4,
                    cidr6,
                    leaf(mech_text(m), NodeStatus::Info),
                    false,
                );
            }
        },
        MechView::Include { domain, .. } => {
            lemma_resolve_keeps_chain(ans, ip, st, domain, fuel);
        },
        MechView::Ptr { domain, .. } => {
            let target = match domain {
                Some(d) => d,
                None => current,
            };
            let (r, st1) = ptr_lookup_spec(ans, st, ip);
            if let Flow::Ready(Ok(names)) = r {
                lemma_ptr_loop_keeps_chain(ans, ip, st1, names, 0, target);
            }
        },
        _ => {},
    }
}

proof fn lemma_mechs_keep_chain(
    ans: Seq<AnswerView>,
    ip: IpAddress,
    st: EvalState,
    mechs: Seq<MechView>,
    i: int,
    domain: Seq<char>,
    fuel: nat,
    root: TreeView,
)
    requires
        mechs_spec(ans, ip, st, mechs, i, domain, fuel, root).0 is Ready,
    ensures
        mechs_spec(ans, ip, st, mechs, i, domain, fuel, root).1.visited == st.visited,
    decreases fuel, 2int, mechs.len() - i,
{
    if 0 <= i < mechs.len() {
        let (r, st1) = eval_mech_spec(ans, ip, st, mechs[i], domain, fuel);
        if let Flow::Ready((child, e)) = r {
            lemma_eval_keeps_chain(ans, ip, st, mechs[i], domain, fuel);
            if e is Skip {
                lemma_mechs_keep_chain(ans, ip, st1, mechs, i + 1, domain, fuel, add_child_v(root, child));
            }
        }
    }
}

proof fn lemma_after_mechs_keep_chain(
    ans: Seq<AnswerView>,
    ip: IpAddress,
    st: EvalState,
    record: RecordView,
    spf_text: Seq<char>,
    root: TreeView,
    found: Option<(bool, Seq<char>)>,
    fuel: nat,
)
    requires
        after_mechs_spec(ans, ip, st, record, spf_text, root, found, fuel).0 is Ready,
    ensures
        after_mechs_spec(ans, ip, st, record, spf_text, root, found, fuel).1.visited == st.visited,
    decreases fuel, 0int, 1int,
{
    if found is None && !has_all(record) && redirect_of(record) is Some {
        lemma_resolve_keeps_chain(ans, ip, st, redirect_of(record)->0, fuel);
    }
}

proof fn lemma_resolve_keeps_chain(ans: Seq<AnswerView>, ip: IpAddress, st: EvalState, domain: Seq<char>, fuel: nat)
    requires
        resolve_spec(ans, ip, st, domain, fuel).0 is Ready,
    ensures
        resolve_spec(ans, ip, st, domain, fuel).1.visited == st.visited,
    decreases fuel, 0int, 0int,
{
    if fuel > 0 && !st.visited.contains(domain) {
        lemma_push_remove(st.visited, domain);
        let st0 = EvalState { visited: st.visited.push(domain), ..st };
        let (r, st1) = txt_lookup_spec(ans, st0, domain);
        if let Flow::Ready(Ok(texts)) = r {
            if texts.len() == 1 {
                if let Ok(record) = spf_spec(texts[0]) {
                    let root = with_detail_v(leaf(domain, NodeStatus::Info), texts[0]);
                    let (r2, st2) = mechs_spec(ans, ip, st1, record.mechanisms, 0, domain, (fuel - 1) as nat, root);
                    if let Flow::Ready((root2, found)) = r2 {
                        lemma_mechs_keep_chain(ans, ip, st1, record.mechanisms, 0, domain, (fuel - 1) as nat, root);
                        if after_mechs_spec(ans, ip, st2, record, texts[0], root2, found, (fuel - 1) as nat).0 is Ready {
                            lemma_after_mechs_keep_chain(ans, ip, st2, record, texts[0], root2, found, (fuel - 1) as nat);
                        }
                    }
                }
            }
        }
    }
}

/// Circular-reference detection backtracks: a resolution that completes, with a
/// result or an error, leaves the include/redirect chain as it found it, so only a
/// domain on the current chain is ever reported as circular.
pub proof fn lemma_resolution_restores_chain(ans: Seq<AnswerView>, ip: IpAddress, st: EvalState, domain: Seq<char>, fuel: nat)
    requires
        resolve_spec(ans, ip, st, domain, fuel).0 is Ready,
    ensures
        resolve_spec(ans, ip, st, domain, fuel).1.visited == st.visited,
{
    lemma_resolve_keeps_chain(ans, ip, st, domain, fuel);
}

/// A lookup made on behalf of a check: the four counted kinds, and the two that
/// only serve the display of MX records.
pub enum LookupCall {
    Txt(Seq<char>),
    Mx(Seq<char>),
    Ip(Seq<char>),
    Ptr(IpAddress),
    MxDisplay(Seq<char>),
    IpUncounted(Seq<char>),
}

/// Whether a lookup counts towards the limit.
pub open spec fn is_counted(c: LookupCall) -> bool {
    !(c is MxDisplay || c is IpUncounted)
}

/// The state after one lookup.
pub open spec fn call_state(ans: Seq<AnswerView>, st: EvalState, c: LookupCall) -> EvalState {
    match c {
        LookupCall::Txt(d) => txt_lookup_spec(ans, st, d).1,
        LookupCall::Mx(d) => mx_lookup_spec(ans, st, d).1,
        LookupCall::Ip(d) => ip_lookup_spec(ans, st, d).1,
        LookupCall::Ptr(ip) => ptr_lookup_spec(ans, st, ip).1,
        LookupCall::MxDisplay(d) => mx_display_spec(ans, st, d).1,
        LookupCall::IpUncounted(d) => ip_nocount_spec(ans, st, d).1,
    }
}

/// The state after the lookups `calls`, in order.
pub open spec fn run_calls(ans: Seq<AnswerView>, st: EvalState, calls: Seq<LookupCall>) -> EvalState
    decreases calls.len(),
{
    if calls.len() == 0 {
        st
    } else {
        call_state(ans, run_calls(ans, st, calls.drop_last()), calls.last())
    }
}

/// The number of counted lookups among `calls`.
pub open spec fn counted_calls(calls: Seq<LookupCall>) -> nat
    decreases calls.len(),
{
    if calls.len() == 0 {
        0
    } else {
        counted_calls(calls.drop_last()) + if is_counted(calls.last()) {
            1nat
        } else {
            0nat
        }
    }
}

/// The lookup counter counts exactly the TXT, MX, A/AAAA and PTR lookups made, refused
/// and failed ones included; the lookups for the MX display never change it. From a
/// fresh state (count 0) it therefore equals the number of counted lookups.
pub proof fn lemma_lookup_count(ans: Seq<AnswerView>, st: EvalState, calls: Seq<LookupCall>)
    requires
        st.count + counted_calls(calls) <= u32::MAX,
    ensures
        run_calls(ans, st, calls).count == st.count + counted_calls(calls),
    decreases calls.len(),
{
    if calls.len() > 0 {
        lemma_lookup_count(ans, st, calls.drop_last());
    }
}

} // verus!
