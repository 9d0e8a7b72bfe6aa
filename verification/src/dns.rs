//! DNS queries and answers as plain values, and what the resolver reads from them:
//! the SPF texts of a TXT answer, the sorted exchanges of an MX answer, the
//! names of a PTR answer, the addresses of an A/AAAA answer, and the lookup limit.

use vstd::prelude::*;

use crate::error::{ErrView, SpfError, SpfResult};
use crate::net::{ip_text, IpAddress};
use crate::text::{starts_with, starts_with_exec, utf8_lossy, utf8_lossy_text};

verus! {

/// RFC 7208 §4.6.1: at most 10 DNS-querying mechanisms in one SPF check.
pub const MAX_DNS_LOOKUPS: u32 = 10;

/// A DNS query the resolver needs answered.
#[derive(Debug, Clone, PartialEq, Eq)]
pub enum DnsQuery {
    /// TXT records of a domain.
    Txt(String),
    /// MX records of a domain.
    Mx(String),
    /// A and AAAA records of a domain.
    Ip(String),
    /// PTR records of an address (reverse lookup).
    Ptr(IpAddress),
}

/// The mathematical content of a [`DnsQuery`].
pub enum QueryView {
    Txt(Seq<char>),
    Mx(Seq<char>),
    Ip(Seq<char>),
    Ptr(IpAddress),
}

impl View for DnsQuery {
    type V = QueryView;

    open spec fn view(&self) -> QueryView {
        match self {
            DnsQuery::Txt(d) => QueryView::Txt(d@),
            DnsQuery::Mx(d) => QueryView::Mx(d@),
            DnsQuery::Ip(d) => QueryView::Ip(d@),
            DnsQuery::Ptr(ip) => QueryView::Ptr(*ip),
        }
    }
}

/// The answer to a [`DnsQuery`], as received.
#[derive(Debug)]
pub enum DnsAnswer {
    /// TXT lookup: each TXT record as its character-strings (bytes), or the resolver's error text.
    Txt(Result<Vec<Vec<Vec<u8>>>, String>),
    /// MX lookup: (preference, exchange name as written by the resolver), or the error text.
    Mx(Result<Vec<(u16, String)>, String>),
    /// A and AAAA lookups, each `None` when that lookup failed.
    Ip { v4: Option<Vec<u32>>, v6: Option<Vec<u128>> },
    /// PTR lookup: the names as written by the resolver, or the error text.
    Ptr(Result<Vec<String>, String>),
}

/// The mathematical content of a [`DnsAnswer`].
pub enum AnswerView {
    Txt(Result<Seq<Seq<Seq<u8>>>, Seq<char>>),
    Mx(Result<Seq<(u16, Seq<char>)>, Seq<char>>),
    Ip { v4: Option<Seq<u32>>, v6: Option<Seq<u128>> },
    Ptr(Result<Seq<Seq<char>>, Seq<char>>),
}

/// Views of TXT records.
pub open spec fn txt_records_view(v: Seq<Vec<Vec<u8>>>) -> Seq<Seq<Seq<u8>>> {
    v.map_values(|r: Vec<Vec<u8>>| r@.map_values(|c: Vec<u8>| c@))
}

/// Views of MX records.
pub open spec fn mx_view(v: Seq<(u16, String)>) -> Seq<(u16, Seq<char>)> {
    v.map_values(|r: (u16, String)| (r.0, r.1@))
}

/// Views of strings.
pub open spec fn names_view(v: Seq<String>) -> Seq<Seq<char>> {
    v.map_values(|s: String| s@)
}

/// View of an optional vector.
pub open spec fn opt_vec_view<T>(o: Option<Vec<T>>) -> Option<Seq<T>> {
    match o {
        Some(v) => Some(v@),
        None => None,
    }
}

impl View for DnsAnswer {
    type V = AnswerView;

    open spec fn view(&self) -> AnswerView {
        match self {
            DnsAnswer::Txt(r) => AnswerView::Txt(
                match r {
                    Ok(v) => Ok(txt_records_view(v@)),
                    Err(e) => Err(e@),
                },
            ),
            DnsAnswer::Mx(r) => AnswerView::Mx(
                match r {
                    Ok(v) => Ok(mx_view(v@)),
                    Err(e) => Err(e@),
                },
            ),
            DnsAnswer::Ip { v4, v6 } => AnswerView::Ip { v4: opt_vec_view(*v4), v6: opt_vec_view(*v6) },
            DnsAnswer::Ptr(r) => AnswerView::Ptr(
                match r {
                    Ok(v) => Ok(names_view(v@)),
                    Err(e) => Err(e@),
                },
            ),
        }
    }
}

/// A name without the trailing dot of a fully qualified name.
pub open spec fn strip_dot(s: Seq<char>) -> Seq<char> {
    if s.len() > 0 && s.last() == '.' {
        s.drop_last()
    } else {
        s
    }
}

/// The text of one TXT record: its character-strings decoded and joined.
pub open spec fn record_text(chunks: Seq<Seq<u8>>) -> Seq<char>
    decreases chunks.len(),
{
    if chunks.len() == 0 {
        Seq::empty()
    } else {
        record_text(chunks.drop_last()) + utf8_lossy_text(chunks.last())
    }
}

/// The texts of the TXT records that start with `v=spf1`, in answer order.
pub open spec fn spf_texts_spec(records: Seq<Seq<Seq<u8>>>) -> Seq<Seq<char>>
    decreases records.len(),
{
    if records.len() == 0 {
        Seq::empty()
    } else {
        let prev = spf_texts_spec(records.drop_last());
        let t = record_text(records.last());
        if starts_with(t, "v=spf1"@) {
            prev.push(t)
        } else {
            prev
        }
    }
}

/// `x` inserted into the preference-sorted `s`, after every record of equal or lower preference.
pub open spec fn insert_by_pref(s: Seq<(u16, Seq<char>)>, x: (u16, Seq<char>)) -> Seq<(u16, Seq<char>)>
    decreases s.len(),
{
    if s.len() == 0 {
        seq![x]
    } else if s.last().0 <= x.0 {
        s.push(x)
    } else {
        insert_by_pref(s.drop_last(), x).push(s.last())
    }
}

/// MX records sorted by preference; records of equal preference keep their order
/// (what a stable `sort_by_key` on the preference gives).
pub open spec fn sort_by_pref(s: Seq<(u16, Seq<char>)>) -> Seq<(u16, Seq<char>)>
    decreases s.len(),
{
    if s.len() == 0 {
        Seq::empty()
    } else {
        insert_by_pref(sort_by_pref(s.drop_last()), s.last())
    }
}

/// MX records with the trailing dot of each exchange removed.
pub open spec fn strip_mx(s: Seq<(u16, Seq<char>)>) -> Seq<(u16, Seq<char>)> {
    s.map_values(|r: (u16, Seq<char>)| (r.0, strip_dot(r.1)))
}

/// The addresses of an A/AAAA answer: the IPv4 ones, then the IPv6 ones; a failed lookup adds none.
pub open spec fn ip_list_spec(v4: Option<Seq<u32>>, v6: Option<Seq<u128>>) -> Seq<IpAddress> {
    let a = match v4 {
        Some(s) => s.map_values(|x: u32| IpAddress::V4(x)),
        None => Seq::empty(),
    };
    let b = match v6 {
        Some(s) => s.map_values(|x: u128| IpAddress::V6(x)),
        None => Seq::empty(),
    };
    a + b
}

/// What a TXT lookup yields: the SPF texts, or the error text. An answer of another
/// kind counts as a failed lookup with an empty error text.
pub open spec fn txt_outcome(a: AnswerView) -> Result<Seq<Seq<char>>, Seq<char>> {
    match a {
        AnswerView::Txt(Ok(records)) => Ok(spf_texts_spec(records)),
        AnswerView::Txt(Err(m)) => Err(m),
        _ => Err(Seq::empty()),
    }
}

/// What an MX lookup yields: the exchanges sorted by preference, or the error text.
pub open spec fn mx_outcome(a: AnswerView) -> Result<Seq<(u16, Seq<char>)>, Seq<char>> {
    match a {
        AnswerView::Mx(Ok(records)) => Ok(sort_by_pref(strip_mx(records))),
        AnswerView::Mx(Err(m)) => Err(m),
        _ => Err(Seq::empty()),
    }
}

/// What an A/AAAA lookup yields: the addresses (none for an answer of another kind).
pub open spec fn ip_outcome(a: AnswerView) -> Seq<IpAddress> {
    match a {
        AnswerView::Ip { v4, v6 } => ip_list_spec(v4, v6),
        _ => Seq::empty(),
    }
}

/// What a PTR lookup yields: the names without trailing dots, or the error text.
pub open spec fn ptr_outcome(a: AnswerView) -> Result<Seq<Seq<char>>, Seq<char>> {
    match a {
        AnswerView::Ptr(Ok(names)) => Ok(names.map_values(|n: Seq<char>| strip_dot(n))),
        AnswerView::Ptr(Err(m)) => Err(m),
        _ => Err(Seq::empty()),
    }
}

/// The lookup counter after one more lookup (wrapping, as `AtomicU32::fetch_add` does).
pub open spec fn next_count(c: u32) -> u32 {
    if c == u32::MAX {
        0
    } else {
        (c + 1) as u32
    }
}

/// Removes the trailing dot of a fully qualified name.
pub fn strip_trailing_dot(s: String) -> (r: String)
    ensures
        r@ == strip_dot(s@),
{
    let n = s.as_str().unicode_len();
    if n > 0 && s.as_str().get_char(n - 1) == '.' {
        let t = s.as_str().substring_char(0, n - 1);
        String::from_str(t)
    } else {
        s
    }
}

/// Counts one lookup; past the limit the lookup is refused.
pub fn count_lookup(count: &mut u32, domain: &str) -> (r: SpfResult<()>)
    ensures
        *final(count) == next_count(*old(count)),
        r is Ok <==> *final(count) <= MAX_DNS_LOOKUPS,
        r matches Err(e) ==> e@ == (ErrView::DnsLookupLimitExceeded {
            count: *final(count),
            domain: domain@,
        }),
{
    let c = count.wrapping_add(1);
    *count = c;
    if c > MAX_DNS_LOOKUPS {
        Err(SpfError::DnsLookupLimitExceeded { count: c, domain: String::from_str(domain) })
    } else {
        Ok(())
    }
}

fn record_string(chunks: &Vec<Vec<u8>>) -> (r: String)
    ensures
        r@ == record_text(chunks@.map_values(|c: Vec<u8>| c@)),
{
    let ghost cv = chunks@.map_values(|c: Vec<u8>| c@);
    let mut r = String::new();
    let mut i: usize = 0;
    while i < chunks.len()
        invariant
            cv == chunks@.map_values(|c: Vec<u8>| c@),
            i <= chunks@.len(),
            r@ == record_text(cv.take(i as int)),
        decreases chunks.len() - i,
    {
        assert(cv.take(i + 1).drop_last() =~= cv.take(i as int));
        let t = utf8_lossy(chunks[i].as_slice());
        r.append(t.as_str());
        i = i + 1;
    }
    assert(cv.take(chunks.len() as int) =~= cv);
    r
}

/// The texts of the TXT records that start with `v=spf1`.
pub fn spf_texts(records: &Vec<Vec<Vec<u8>>>) -> (r: Vec<String>)
    ensures
        names_view(r@) == spf_texts_spec(txt_records_view(records@)),
{
    let ghost rv = txt_records_view(records@);
    let mut r: Vec<String> = Vec::new();
    let mut i: usize = 0;
    while i < records.len()
        invariant
            rv == txt_records_view(records@),
            i <= records@.len(),
            names_view(r@) == spf_texts_spec(rv.take(i as int)),
        decreases records.len() - i,
    {
        assert(rv.take(i + 1).drop_last() =~= rv.take(i as int));
        let t = record_string(&records[i]);
        if starts_with_exec(t.as_str(), "v=spf1") {
            let ghost before = r@;
            r.push(t);
            assert(names_view(r@) =~= names_view(before).push(t@));
        }
        i = i + 1;
    }
    assert(rv.take(records.len() as int) =~= rv);
    r
}

fn insert_sorted(v: &mut Vec<(u16, String)>, x: (u16, String))
    ensures
        mx_view(final(v)@) == insert_by_pref(mx_view(old(v)@), (x.0, x.1@)),
    decreases old(v)@.len(),
{
    let ghost before = mx_view(v@);
    let n = v.len();
    if n == 0 || v[n - 1].0 <= x.0 {
        v.push(x);
        assert(mx_view(v@) =~= before.push((x.0, x.1@)));
    } else {
        let last = v.pop().unwrap();
        assert(mx_view(v@) =~= before.drop_last());
        insert_sorted(v, x);
        let ghost mid = mx_view(v@);
        v.push(last);
        assert(mx_view(v@) =~= mid.push((last.0, last.1@)));
    }
}

/// MX records with trailing dots removed, sorted by preference (stable).
pub fn sort_mx_records(raw: &Vec<(u16, String)>) -> (r: Vec<(u16, String)>)
    ensures
        mx_view(r@) == sort_by_pref(strip_mx(mx_view(raw@))),
{
    let ghost s = strip_mx(mx_view(raw@));
    let mut r: Vec<(u16, String)> = Vec::new();
    let mut i: usize = 0;
    assert(mx_view(r@) =~= Seq::<(u16, Seq<char>)>::empty());
    while i < raw.len()
        invariant
            s == strip_mx(mx_view(raw@)),
            s.len() == raw@.len(),
            i <= raw@.len(),
            mx_view(r@) == sort_by_pref(s.take(i as int)),
        decreases raw.len() - i,
    {
        assert(s.take(i + 1).drop_last() =~= s.take(i as int));
        let name = strip_trailing_dot(raw[i].1.clone());
        assert(s[i as int] == (raw@[i as int].0, name@));
        insert_sorted(&mut r, (raw[i].0, name));
        i = i + 1;
    }
    assert(s.take(raw.len() as int) =~= s);
    r
}

/// PTR names with trailing dots removed.
pub fn strip_names(raw: &Vec<String>) -> (r: Vec<String>)
    ensures
        names_view(r@) == names_view(raw@).map_values(|n: Seq<char>| strip_dot(n)),
{
    let mut r: Vec<String> = Vec::new();
    let mut i: usize = 0;
    while i < raw.len()
        invariant
            i <= raw@.len(),
            r@.len() == i,
            forall|j: int| 0 <= j < i ==> #[trigger] r@[j]@ == strip_dot(raw@[j]@),
        decreases raw.len() - i,
    {
        r.push(strip_trailing_dot(raw[i].clone()));
        i = i + 1;
    }
    assert(names_view(r@) =~= names_view(raw@).map_values(|n: Seq<char>| strip_dot(n)));
    r
}

/// The addresses of an A/AAAA answer: IPv4 first, then IPv6.
pub fn ip_list(v4: &Option<Vec<u32>>, v6: &Option<Vec<u128>>) -> (r: Vec<IpAddress>)
    ensures
        r@ == ip_list_spec(opt_vec_view(*v4), opt_vec_view(*v6)),
{
    let mut r: Vec<IpAddress> = Vec::new();
    let ghost a = match opt_vec_view(*v4) {
        Some(s) => s.map_values(|x: u32| IpAddress::V4(x)),
        None => Seq::empty(),
    };
    let ghost b = match opt_vec_view(*v6) {
        Some(s) => s.map_values(|x: u128| IpAddress::V6(x)),
        None => Seq::empty(),
    };
    match v4 {
        Some(list) => {
            let mut i: usize = 0;
            while i < list.len()
                invariant
                    i <= list@.len(),
                    a == list@.map_values(|x: u32| IpAddress::V4(x)),
                    r@ =~= a.take(i as int),
                decreases list.len() - i,
            {
                r.push(IpAddress::V4(list[i]));
                i = i + 1;
            }
        },
        None => {},
    }
    assert(r@ =~= a);
    match v6 {
        Some(list) => {
            let mut i: usize = 0;
            while i < list.len()
                invariant
                    i <= list@.len(),
                    b == list@.map_values(|x: u128| IpAddress::V6(x)),
                    r@ =~= a + b.take(i as int),
                decreases list.len() - i,
            {
                r.push(IpAddress::V6(list[i]));
                i = i + 1;
            }
        },
        None => {},
    }
    assert(r@ =~= a + b);
    r
}


/// Preferences never decrease along `s`.
pub open spec fn sorted_by_pref(s: Seq<(u16, Seq<char>)>) -> bool {
    forall|i: int, j: int| 0 <= i < j < s.len() ==> (#[trigger] s[i]).0 <= (#[trigger] s[j]).0
}

proof fn lemma_insert_by_pref(s: Seq<(u16, Seq<char>)>, x: (u16, Seq<char>))
    requires
        sorted_by_pref(s),
    ensures
        sorted_by_pref(insert_by_pref(s, x)),
        insert_by_pref(s, x).to_multiset() =~= s.to_multiset().insert(x),
        insert_by_pref(s, x).len() == s.len() + 1,
        forall|k: int| 0 <= k < insert_by_pref(s, x).len() ==> #[trigger] insert_by_pref(s, x)[k] == x || (
        exists|m: int| 0 <= m < s.len() && s[m] == insert_by_pref(s, x)[k]),
    decreases s.len(),
{
    broadcast use vstd::seq_lib::group_to_multiset_ensures;

    if s.len() == 0 {
        assert(seq![x] =~= Seq::<(u16, Seq<char>)>::empty().push(x));
    } else if s.last().0 <= x.0 {
        let r = s.push(x);
        assert forall|k: int| 0 <= k < r.len() implies #[trigger] r[k] == x || (exists|m: int|
            0 <= m < s.len() && s[m] == r[k]) by {
            if k < s.len() {
                assert(s[k] == r[k]);
            }
        }
    } else {
        let p = s.drop_last();
        assert(sorted_by_pref(p));
        lemma_insert_by_pref(p, x);
        let ip = insert_by_pref(p, x);
        let r = ip.push(s.last());
        assert(s =~= p.push(s.last()));
        assert forall|i: int, j: int| 0 <= i < j < r.len() implies (#[trigger] r[i]).0 <= (#[trigger] r[j]).0 by {
            if j == r.len() - 1 && i < ip.len() {
                let a = ip[i];
                if a != x {
                    let m = choose|m: int| 0 <= m < p.len() && p[m] == a;
                    assert(s[m] == a);
                    assert(s[m].0 <= s[s.len() - 1].0);
                }
            }
        }
        assert forall|k: int| 0 <= k < r.len() implies #[trigger] r[k] == x || (exists|m: int|
            0 <= m < s.len() && s[m] == r[k]) by {
            if k == r.len() - 1 {
                assert(s[s.len() - 1] == r[k]);
            } else {
                assert(ip[k] == r[k]);
                if ip[k] != x {
                    let m = choose|m: int| 0 <= m < p.len() && p[m] == ip[k];
                    assert(s[m] == p[m]);
                }
            }
        }
        assert(p.to_multiset().insert(x).insert(s.last()) =~= p.to_multiset().insert(s.last()).insert(x));
    }
}

/// The MX order: preferences never decrease, and the records are those of the
/// answer (the same multiset).
pub proof fn lemma_sort_by_pref(s: Seq<(u16, Seq<char>)>)
    ensures
        sorted_by_pref(sort_by_pref(s)),
        sort_by_pref(s).to_multiset() =~= s.to_multiset(),
        sort_by_pref(s).len() == s.len(),
    decreases s.len(),
{
    broadcast use vstd::seq_lib::group_to_multiset_ensures;

    if s.len() > 0 {
        lemma_sort_by_pref(s.drop_last());
        lemma_insert_by_pref(sort_by_pref(s.drop_last()), s.last());
        assert(s =~= s.drop_last().push(s.last()));
    }
}

/// `strip_dot` removes exactly one trailing dot, and nothing from a name without one.
pub proof fn lemma_strip_dot(s: Seq<char>)
    ensures
        s.len() > 0 && s.last() == '.' ==> strip_dot(s).push('.') == s,
        !(s.len() > 0 && s.last() == '.') ==> strip_dot(s) == s,
{
    if s.len() > 0 && s.last() == '.' {
        assert(s.drop_last().push('.') =~= s);
    }
}

} // verus!
