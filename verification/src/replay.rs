//! An SPF check reads answers in the order it asks for them and never looks past
//! what it needs: once it completes on some answers, further answers change nothing.

use vstd::prelude::*;

use crate::dns::AnswerView;
use crate::net::IpAddress;
use crate::resolver::{
    after_mechs_spec, check_spec, eval_mech_spec, exchange, ip_lookup_spec, ip_nocount_spec,
    mechs_spec, mx_display_spec, mx_ips_spec, mx_loop_spec, mx_lookup_spec, ptr_lookup_spec,
    ptr_loop_spec, resolve_spec, txt_lookup_spec, EvalState, Flow,
};
use crate::spf::{MechView, Qualifier, RecordView};
use crate::tree::TreeView;

verus! {

proof fn lemma_exchange_ext(ans: Seq<AnswerView>, ans2: Seq<AnswerView>, st: EvalState, q: crate::dns::QueryView)
    requires
        ans.is_prefix_of(ans2),
        exchange(ans, st, q).0 is Ready,
    ensures
        exchange(ans2, st, q) == exchange(ans, st, q),
{
    assert(ans2[st.pos] == ans[st.pos]);
}

proof fn lemma_lookups_ext(ans: Seq<AnswerView>, ans2: Seq<AnswerView>, st: EvalState, d: Seq<char>, ip: IpAddress)
    requires
        ans.is_prefix_of(ans2),
    ensures
        txt_lookup_spec(ans, st, d).0 is Ready ==> txt_lookup_spec(ans2, st, d) == txt_lookup_spec(ans, st, d),
        mx_lookup_spec(ans, st, d).0 is Ready ==> mx_lookup_spec(ans2, st, d) == mx_lookup_spec(ans, st, d),
        ip_lookup_spec(ans, st, d).0 is Ready ==> ip_lookup_spec(ans2, st, d) == ip_lookup_spec(ans, st, d),
        ptr_lookup_spec(ans, st, ip).0 is Ready ==> ptr_lookup_spec(ans2, st, ip) == ptr_lookup_spec(ans, st, ip),
        mx_display_spec(ans, st, d).0 is Ready ==> mx_display_spec(ans2, st, d) == mx_display_spec(ans, st, d),
        ip_nocount_spec(ans, st, d).0 is Ready ==> ip_nocount_spec(ans2, st, d) == ip_nocount_spec(ans, st, d),
{
    if 0 <= st.pos < ans.len() {
        assert(ans2[st.pos] == ans[st.pos]);
    }
    let st1 = EvalState { count: crate::dns::next_count(st.count), ..st };
    if 0 <= st1.pos < ans.len() {
        assert(ans2[st1.pos] == ans[st1.pos]);
    }
}

proof fn lemma_mx_loop_ext(
    ans: Seq<AnswerView>,
    ans2: Seq<AnswerView>,
    ip: IpAddress,
    st: EvalState,
    records: Seq<(u16, Seq<char>)>,
    i: int,
    q: Qualifier,
    cidr4: Option<u8>,
    cidr6: Option<u8>,
    node: TreeView,
    any: bool,
)
    requires
        ans.is_prefix_of(ans2),
        mx_loop_spec(ans, ip, st, records, i, q, cidr4, cidr6, node, any).0 is Ready,
    ensures
        mx_loop_spec(ans2, ip, st, records, i, q, cidr4, cidr6, node, any) == mx_loop_spec(
            ans,
            ip,
            st,
            records,
            i,
            q,
            cidr4,
            cidr6,
            node,
            any,
        ),
    decreases records.len() - i,
{
    if 0 <= i < records.len() {
        lemma_lookups_ext(ans, ans2, st, records[i].1, ip);
        let (r, st1) = ip_lookup_spec(ans, st, records[i].1);
        if let Flow::Ready(res) = r {
            let ips = match res {
                Ok(ips) => ips,
                Err(_) => Seq::empty(),
            };
            let in_range = crate::matcher::any_resolved_match(ip, ips, cidr4, cidr6);
            let child_authorized = in_range && q == Qualifier::Pass;
            let child = crate::resolver::with_detail_v(
                crate::resolver::leaf(
                    records[i].1,
                    if child_authorized {
                        crate::tree::NodeStatus::Match
                    } else {
                        crate::tree::NodeStatus::NoMatch
                    },
                ),
                crate::resolver::ips_detail(ips),
            );
            lemma_mx_loop_ext(
                ans,
                ans2,
                ip,
                st1,
                records,
                i + 1,
                q,
                cidr4,
                cidr6,
                crate::resolver::add_child_v(node, child),
                any || in_range,
            );
        }
    }
}

proof fn lemma_ptr_loop_ext(
    ans: Seq<AnswerView>,
    ans2: Seq<AnswerView>,
    ip: IpAddress,
    st: EvalState,
    names: Seq<Seq<char>>,
    i: int,
    target: Seq<char>,
)
    requires
        ans.is_prefix_of(ans2),
        ptr_loop_spec(ans, ip, st, names, i, target).0 is Ready,
    ensures
        ptr_loop_spec(ans2, ip, st, names, i, target) == ptr_loop_spec(ans, ip, st, names, i, target),
    decreases names.len() - i,
{
    if 0 <= i < names.len() {
        let name = names[i];
        if crate::resolver::name_within(name, target) {
            lemma_lookups_ext(ans, ans2, st, name, ip);
            let (r, st1) = ip_lookup_spec(ans, st, name);
            if let Flow::Ready(res) = r {
                let hit = match res {
                    Ok(ips) => ips.contains(ip),
                    Err(_) => false,
                };
                if !hit {
                    lemma_ptr_loop_ext(ans, ans2, ip, st1, names, i + 1, target);
                }
            }
        } else {
            lemma_ptr_loop_ext(ans, ans2, ip, st, names, i + 1, target);
        }
    }
}

proof fn lemma_eval_mech_ext(
    ans: Seq<AnswerView>,
    ans2: Seq<AnswerView>,
    ip: IpAddress,
    st: EvalState,
    m: MechView,
    current: Seq<char>,
    fuel: nat,
    fuel2: nat,
)
    requires
        ans.is_prefix_of(ans2),
        fuel <= fuel2,
        eval_mech_spec(ans, ip, st, m, current, fuel).0 is Ready,
    ensures
        eval_mech_spec(ans2, ip, st, m, current, fuel2) == eval_mech_spec(ans, ip, st, m, current, fuel),
    decreases fuel, 1int, 0int,
{
    match m {
        MechView::A { domain, .. } => {
            let target = match domain {
                Some(d) => d,
                None => current,
            };
            lemma_lookups_ext(ans, ans2, st, target, ip);
        },
        MechView::Mx { qualifier, domain, cidr4, cidr6 } => {
            let target = match domain {
                Some(d) => d,
                None => current,
            };
            lemma_lookups_ext(ans, ans2, st, target, ip);
            let (r, st1) = mx_lookup_spec(ans, st, target);
            if let Flow::Ready(res) = r {
                let records = match res {
                    Ok(recs) => recs,
                    Err(_) => Seq::empty(),
                };
                let node = crate::resolver::leaf(crate::spf::mech_text(m), crate::tree::NodeStatus::Info);
                if mx_loop_spec(ans, ip, st1, records, 0, qualifier, cidr4, cidr6, node, false).0 is Ready {
                    lemma_mx_loop_ext(ans, ans2, ip, st1, records, 0, qualifier, cidr4, cidr6, node, false);
                }
            }
        },
        MechView::Include { domain, .. } => {
            lemma_resolve_ext(ans, ans2, ip, st, domain, fuel, fuel2);
        },
        MechView::Ptr { domain, .. } => {
            let target = match domain {
                Some(d) => d,
                None => current,
            };
            lemma_lookups_ext(ans, ans2, st, target, ip);
            let (r, st1) = ptr_lookup_spec(ans, st, ip);
            if let Flow::Ready(Ok(names)) = r {
                if ptr_loop_spec(ans, ip, st1, names, 0, target).0 is Ready {
                    lemma_ptr_loop_ext(ans, ans2, ip, st1, names, 0, target);
                }
            }
        },
        MechView::Exists { domain, .. } => {
            lemma_lookups_ext(ans, ans2, st, domain, ip);
        },
        _ => {},
    }
}

proof fn lemma_mechs_ext(
    ans: Seq<AnswerView>,
    ans2: Seq<AnswerView>,
    ip: IpAddress,
    st: EvalState,
    mechs: Seq<MechView>,
    i: int,
    domain: Seq<char>,
    fuel: nat,
    fuel2: nat,
    root: TreeView,
)
    requires
        ans.is_prefix_of(ans2),
        fuel <= fuel2,
        mechs_spec(ans, ip, st, mechs, i, domain, fuel, root).0 is Ready,
    ensures
        mechs_spec(ans2, ip, st, mechs, i, domain, fuel2, root) == mechs_spec(
            ans,
            ip,
            st,
            mechs,
            i,
            domain,
            fuel,
            root,
        ),
    decreases fuel, 2int, mechs.len() - i,
{
    if 0 <= i < mechs.len() {
        let (r, st1) = eval_mech_spec(ans, ip, st, mechs[i], domain, fuel);
        if let Flow::Ready((child, e)) = r {
            lemma_eval_mech_ext(ans, ans2, ip, st, mechs[i], domain, fuel, fuel2);
            if e is Skip {
                lemma_mechs_ext(
                    ans,
                    ans2,
                    ip,
                    st1,
                    mechs,
                    i + 1,
                    domain,
                    fuel,
                    fuel2,
                    crate::resolver::add_child_v(root, child),
                );
            }
        }
    }
}

proof fn lemma_after_mechs_ext(
    ans: Seq<AnswerView>,
    ans2: Seq<AnswerView>,
    ip: IpAddress,
    st: EvalState,
    record: RecordView,
    spf_text: Seq<char>,
    root: TreeView,
    found: Option<(bool, Seq<char>)>,
    fuel: nat,
    fuel2: nat,
)
    requires
        ans.is_prefix_of(ans2),
        fuel <= fuel2,
        after_mechs_spec(ans, ip, st, record, spf_text, root, found, fuel).0 is Ready,
    ensures
        after_mechs_spec(ans2, ip, st, record, spf_text, root, found, fuel2) == after_mechs_spec(
            ans,
            ip,
            st,
            record,
            spf_text,
            root,
            found,
            fuel,
        ),
    decreases fuel, 0int, 1int,
{
    if found is None && !crate::spf::has_all(record) && crate::spf::redirect_of(record) is Some {
        lemma_resolve_ext(ans, ans2, ip, st, crate::spf::redirect_of(record)->0, fuel, fuel2);
    }
}

proof fn lemma_resolve_ext(
    ans: Seq<AnswerView>,
    ans2: Seq<AnswerView>,
    ip: IpAddress,
    st: EvalState,
    domain: Seq<char>,
    fuel: nat,
    fuel2: nat,
)
    requires
        ans.is_prefix_of(ans2),
        fuel <= fuel2,
        resolve_spec(ans, ip, st, domain, fuel).0 is Ready,
    ensures
        resolve_spec(ans2, ip, st, domain, fuel2) == resolve_spec(ans, ip, st, domain, fuel),
    decreases fuel, 0int, 0int,
{
    if fuel > 0 && !st.visited.contains(domain) {
        let st0 = EvalState { visited: st.visited.push(domain), ..st };
        lemma_lookups_ext(ans, ans2, st0, domain, ip);
        let (r, st1) = txt_lookup_spec(ans, st0, domain);
        if let Flow::Ready(Ok(texts)) = r {
            if texts.len() == 1 {
                if let Ok(record) = crate::spf::spf_spec(texts[0]) {
                    let root = crate::resolver::with_detail_v(
                        crate::resolver::leaf(domain, crate::tree::NodeStatus::Info),
                        texts[0],
                    );
                    let (r2, st2) = mechs_spec(ans, ip, st1, record.mechanisms, 0, domain, (fuel - 1) as nat, root);
                    if let Flow::Ready((root2, found)) = r2 {
                        lemma_mechs_ext(
                            ans,
                            ans2,
                            ip,
                            st1,
                            record.mechanisms,
                            0,
                            domain,
                            (fuel - 1) as nat,
                            (fuel2 - 1) as nat,
                            root,
                        );
                        if after_mechs_spec(ans, ip, st2, record, texts[0], root2, found, (fuel - 1) as nat).0 is Ready {
                            lemma_after_mechs_ext(
                                ans,
                                ans2,
                                ip,
                                st2,
                                record,
                                texts[0],
                                root2,
                                found,
                                (fuel - 1) as nat,
                                (fuel2 - 1) as nat,
                            );
                        }
                    }
                }
            }
        }
    }
}

proof fn lemma_mx_ips_ext(
    ans: Seq<AnswerView>,
    ans2: Seq<AnswerView>,
    st: EvalState,
    recs: Seq<(u16, Seq<char>)>,
    i: int,
    acc: Seq<(u16, Seq<char>, Seq<IpAddress>)>,
)
    requires
        ans.is_prefix_of(ans2),
        mx_ips_spec(ans, st, recs, i, acc).0 is Ready,
    ensures
        mx_ips_spec(ans2, st, recs, i, acc) == mx_ips_spec(ans, st, recs, i, acc),
    decreases recs.len() - i,
{
    if 0 <= i < recs.len() {
        lemma_lookups_ext(ans, ans2, st, recs[i].1, IpAddress::V4(0));
        let (r, st1) = ip_nocount_spec(ans, st, recs[i].1);
        if let Flow::Ready(ips) = r {
            lemma_mx_ips_ext(ans, ans2, st1, recs, i + 1, acc.push((recs[i].0, recs[i].1, ips)));
        }
    }
}

/// A completed check stays complete, with the same outcome, when more answers
/// are supplied: the SPF check reads only the answers to the lookups it asked for.
pub proof fn lemma_completed_check_ignores_further_answers(
    ans: Seq<AnswerView>,
    extra: Seq<AnswerView>,
    ip: IpAddress,
    domain: Seq<char>,
)
    requires
        check_spec(ans, ip, domain) is Done,
    ensures
        check_spec(ans + extra, ip, domain) == check_spec(ans, ip, domain),
{
    let ans2 = ans + extra;
    assert(ans.is_prefix_of(ans2)) by {
        assert(ans =~= ans2.subrange(0, ans.len() as int));
    }
    let d = crate::text::lowercase(domain);
    let st0 = EvalState { pos: 0, count: 0, visited: Seq::empty() };
    lemma_lookups_ext(ans, ans2, st0, d, ip);
    let (r, st1) = mx_display_spec(ans, st0, d);
    if let Flow::Ready(mx_raw) = r {
        lemma_mx_ips_ext(ans, ans2, st1, mx_raw, 0, Seq::empty());
        let (r2, st2) = mx_ips_spec(ans, st1, mx_raw, 0, Seq::empty());
        if r2 is Ready {
            lemma_resolve_ext(ans, ans2, ip, st2, d, (ans.len() + 1) as nat, (ans2.len() + 1) as nat);
        }
    }
}

} // verus!
