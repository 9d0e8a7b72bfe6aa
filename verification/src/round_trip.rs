//! The text of an `a` or `mx` mechanism reads back as the same mechanism.

use vstd::prelude::*;

use crate::spf::{
    after_name, cidr_text, domain_cidr_spec, domain_cidrs_of, mech_text, mechanism_spec,
    names_mechanism, opt_domain_text, qualifier_of, qualifier_prefix_text, split_qualifier,
    symbol_of, MechView, Qualifier,
};
use crate::text::{
    all_digits, dec_text, digit_char, digit_value, digits_value,
    first_occurrence_from, is_digit, last_index_before, lowercase, occurs_at,
    starts_with, strip_prefix, u8_text_value,
};

verus! {

proof fn lemma_digit(d: nat)
    requires
        d < 10,
    ensures
        is_digit(digit_char(d)),
        digit_value(digit_char(d)) == d,
{
}

/// Decimal text is a non-empty run of digits with the number's value.
proof fn lemma_dec_text(n: nat)
    ensures
        dec_text(n).len() > 0,
        all_digits(dec_text(n)),
        digits_value(dec_text(n)) == n,
    decreases n,
{
    if n < 10 {
        lemma_digit(n);
        assert(is_digit(dec_text(n)[0]));
        assert(dec_text(n).drop_last() =~= Seq::<char>::empty());
        assert(digits_value(Seq::<char>::empty()) == 0);
        assert(digits_value(dec_text(n)) == digits_value(dec_text(n).drop_last()) * 10 + digit_value(
            dec_text(n).last(),
        ));
    } else {
        lemma_dec_text(n / 10);
        lemma_digit(n % 10);
        let t = dec_text(n);
        assert(t.drop_last() =~= dec_text(n / 10));
        assert(t.last() == digit_char(n % 10));
        assert(digits_value(t) == digits_value(t.drop_last()) * 10 + digit_value(t.last()));
        assert((n / 10) * 10 + n % 10 == n);
        assert forall|i: int| 0 <= i < t.len() implies #[trigger] is_digit(t[i]) by {
            if i < t.len() - 1 {
                assert(t[i] == dec_text(n / 10)[i]);
            }
        }
    }
}

/// `u8::from_str` reads back the decimal text of a `u8`.
proof fn lemma_u8_text(c: u8)
    ensures
        u8_text_value(dec_text(c as nat)) == Some(c),
        dec_text(c as nat).len() > 0,
        all_digits(dec_text(c as nat)),
{
    lemma_dec_text(c as nat);
    assert(is_digit(dec_text(c as nat)[0]));
}

proof fn lemma_first_at(s: Seq<char>, p: Seq<char>, from: int, k: int)
    requires
        0 <= from <= k,
        occurs_at(s, p, k),
        forall|j: int| from <= j < k ==> !occurs_at(s, p, j),
    ensures
        first_occurrence_from(s, p, from) == Some(k),
    decreases k - from,
{
    if from < k {
        assert(!occurs_at(s, p, from));
        lemma_first_at(s, p, from + 1, k);
    }
}

proof fn lemma_first_none(s: Seq<char>, p: Seq<char>, from: int)
    requires
        0 <= from,
        forall|j: int| from <= j ==> !occurs_at(s, p, j),
    ensures
        first_occurrence_from(s, p, from) is None,
    decreases s.len() + 1 - from,
{
    if from + p.len() <= s.len() {
        assert(!occurs_at(s, p, from));
        lemma_first_none(s, p, from + 1);
    }
}

proof fn lemma_last_at(s: Seq<char>, c: char, end: int, k: int)
    requires
        0 <= k < end <= s.len(),
        s[k] == c,
        forall|j: int| k < j < end ==> s[j] != c,
    ensures
        last_index_before(s, c, end) == Some(k),
    decreases end,
{
    if end - 1 > k {
        lemma_last_at(s, c, end - 1, k);
    }
}

proof fn lemma_last_none(s: Seq<char>, c: char, end: int)
    requires
        end <= s.len(),
        forall|j: int| 0 <= j < end ==> s[j] != c,
    ensures
        last_index_before(s, c, end) is None,
    decreases end,
{
    if end > 0 {
        lemma_last_none(s, c, end - 1);
    }
}

/// `s` holds no `/`.
pub open spec fn no_slash(s: Seq<char>) -> bool {
    forall|i: int| 0 <= i < s.len() ==> s[i] != '/'
}

/// The `/cidr4` part of the text.
spec fn c4_part(cidr4: Option<u8>) -> Seq<char> {
    match cidr4 {
        Some(c) => "/"@ + dec_text(c as nat),
        None => Seq::empty(),
    }
}

/// The `//cidr6` part of the text.
spec fn c6_part(cidr6: Option<u8>) -> Seq<char> {
    match cidr6 {
        Some(c) => "//"@ + dec_text(c as nat),
        None => Seq::empty(),
    }
}

/// A domain that reads back as itself: non-empty, already lowercase, without `/`.
pub open spec fn plain_domain(d: Seq<char>) -> bool {
    d.len() > 0 && lowercase(d) == d && no_slash(d)
}

/// The part after the mechanism name: `d`, then the CIDR lengths.
proof fn lemma_value_parses(dp: Seq<char>, cidr4: Option<u8>, cidr6: Option<u8>)
    requires
        no_slash(dp),
        dp.len() > 0 ==> lowercase(dp) == dp,
    ensures
        domain_cidrs_of(dp + c4_part(cidr4) + c6_part(cidr6)) == Ok::<
            (Option<Seq<char>>, Option<u8>, Option<u8>),
            crate::error::ErrView,
        >((if dp.len() == 0 { None } else { Some(dp) }, cidr4, cidr6)),
{
    reveal_strlit("/");
    reveal_strlit("//");
    let p4 = c4_part(cidr4);
    let p6 = c6_part(cidr6);
    let before = dp + p4;
    let value = before + p6;
    // Every `/` of `before` is the one opening `/cidr4`, followed by a digit.
    let slash_at = dp.len() as int;
    match cidr4 {
        Some(c) => {
            lemma_u8_text(c);
            assert(p4[0] == '/');
            assert forall|i: int| 0 <= i < p4.len() && i != 0 implies p4[i] != '/' by {
                assert(p4[i] == dec_text(c as nat)[i - 1]);
                assert(is_digit(dec_text(c as nat)[i - 1]));
            }
            assert(before.skip(slash_at + 1) =~= dec_text(c as nat));
            assert(before.take(slash_at) =~= dp);
        },
        None => {
            assert(before =~= dp);
        },
    }
    assert forall|i: int| 0 <= i < before.len() && #[trigger] before[i] == '/' implies i == slash_at && cidr4 is Some
        && (i + 1 >= before.len() || before[i + 1] != '/') by {
        if i < dp.len() {
            assert(before[i] == dp[i]);
        } else {
            assert(before[i] == p4[i - dp.len()]);
            if let Some(c) = cidr4 {
                if i + 1 < before.len() {
                    assert(before[i + 1] == p4[i + 1 - dp.len()]);
                }
            }
        }
    }
    let dom = if dp.len() == 0 { None } else { Some(dp) };
    match cidr6 {
        Some(c6) => {
            lemma_u8_text(c6);
            let k = before.len() as int;
            assert(value.subrange(k, k + 2) =~= "//"@);
            assert forall|j: int| 0 <= j < k implies !occurs_at(value, "//"@, j) by {
                if occurs_at(value, "//"@, j) {
                    assert(value.subrange(j, j + 2)[0] == '/');
                    assert(value[j] == '/');
                    assert(value[j] == before[j]);
                    if j + 1 < k {
                        assert(value.subrange(j, j + 2)[1] == '/');
                        assert(value[j + 1] == before[j + 1]);
                    } else {
                        // `j` is the last character of `before`, a digit or a domain character.
                        assert(j == slash_at);
                    }
                }
            }
            lemma_first_at(value, "//"@, 0, k);
            assert(value.take(k) =~= before);
            assert(value.skip(k + 2) =~= dec_text(c6 as nat));
            match cidr4 {
                Some(c) => {
                    assert forall|j: int| slash_at < j < before.len() implies before[j] != '/' by {}
                    lemma_last_at(before, '/', before.len() as int, slash_at);
                },
                None => {
                    lemma_last_none(before, '/', before.len() as int);
                },
            }
        },
        None => {
            assert(value =~= before);
            assert forall|j: int| 0 <= j implies !occurs_at(value, "//"@, j) by {
                if occurs_at(value, "//"@, j) {
                    assert(value.subrange(j, j + 2)[0] == '/');
                    assert(value.subrange(j, j + 2)[1] == '/');
                    assert(value[j] == '/');
                    assert(value[j + 1] == '/');
                }
            }
            lemma_first_none(value, "//"@, 0);
            match cidr4 {
                Some(c) => {
                    assert forall|j: int| slash_at < j < before.len() implies before[j] != '/' by {}
                    lemma_last_at(value, '/', value.len() as int, slash_at);
                },
                None => {
                    lemma_last_none(value, '/', value.len() as int);
                },
            }
        },
    }
}

/// The body after the qualifier: the name, then the part `after_name` returns.
proof fn lemma_after_name(name: Seq<char>, domain: Option<Seq<char>>, cidr4: Option<u8>, cidr6: Option<u8>)
    requires
        name.len() > 0,
        domain matches Some(d) ==> plain_domain(d),
    ensures
        after_name(name + opt_domain_text(domain) + cidr_text(cidr4, cidr6), name) == (match domain {
            Some(d) => d,
            None => Seq::empty(),
        }) + c4_part(cidr4) + c6_part(cidr6),
{
    reveal_strlit(":");
    reveal_strlit("/");
    reveal_strlit("//");
    let ct = cidr_text(cidr4, cidr6);
    assert(ct == c4_part(cidr4) + c6_part(cidr6));
    let body = name + opt_domain_text(domain) + ct;
    match domain {
        Some(d) => {
            assert(body.subrange(0, (name.len() + 1) as int) =~= name + ":"@);
            assert(body.skip((name.len() + 1) as int) =~= d + ct);
            assert(Seq::<char>::empty() + c4_part(cidr4) + c6_part(cidr6) =~= ct);
        },
        None => {
            assert(body =~= name + ct);
            if ct.len() == 0 {
                assert(body =~= name);
                assert(Seq::<char>::empty() + c4_part(cidr4) + c6_part(cidr6) =~= ct);
            } else {
                assert(ct[0] == '/') by {
                    if cidr4 is Some {
                        assert(ct[0] == c4_part(cidr4)[0]);
                    } else {
                        assert(ct[0] == c6_part(cidr6)[0]);
                    }
                }
                assert(body[name.len() as int] == '/');
                assert(body.len() != name.len());
                assert((name + ":"@)[name.len() as int] == ':');
                assert(!(body.subrange(0, (name.len() + 1) as int) =~= name + ":"@)) by {
                    assert(body.subrange(0, (name.len() + 1) as int)[name.len() as int] == '/');
                }
                assert(body.subrange(0, (name.len() + 1) as int) =~= name + "/"@);
                assert(body.skip(name.len() as int) =~= Seq::<char>::empty() + c4_part(cidr4) + c6_part(cidr6));
            }
        },
    }
}

/// The qualifier prefix is read back, leaving the body.
proof fn lemma_split_qualifier(q: Qualifier, body: Seq<char>)
    requires
        body.len() > 0,
        qualifier_of(body[0]) is None,
    ensures
        split_qualifier(qualifier_prefix_text(q) + body) == (q, body),
{
    let t = qualifier_prefix_text(q) + body;
    if q != Qualifier::Pass {
        crate::spf::lemma_qualifier_symbol_roundtrip(q);
        assert(t[0] == symbol_of(q));
        assert(t.skip(1) =~= body);
    } else {
        assert(t =~= body);
    }
}

/// What follows the mechanism name starts with `:` when there is a domain, else with `/`.
proof fn lemma_rest_head(domain: Option<Seq<char>>, cidr4: Option<u8>, cidr6: Option<u8>)
    ensures
        ({
            let rest = opt_domain_text(domain) + cidr_text(cidr4, cidr6);
            &&& (rest.len() == 0 <==> (domain is None && cidr4 is None && cidr6 is None))
            &&& rest.len() > 0 ==> rest[0] == (if domain is Some { ':' } else { '/' })
        }),
{
    reveal_strlit(":");
    reveal_strlit("/");
    reveal_strlit("//");
    let ct = cidr_text(cidr4, cidr6);
    assert(ct == c4_part(cidr4) + c6_part(cidr6));
    let rest = opt_domain_text(domain) + ct;
    if let Some(d) = domain {
        assert(rest[0] == opt_domain_text(domain)[0]);
    } else {
        assert(rest =~= ct);
        if cidr4 is Some {
            assert(ct[0] == c4_part(cidr4)[0]);
        } else if cidr6 is Some {
            assert(ct[0] == c6_part(cidr6)[0]);
        } else {
            assert(ct =~= Seq::<char>::empty());
        }
    }
}

/// The text of an `a`/`mx` mechanism after its qualifier.
spec fn named_body(name: Seq<char>, domain: Option<Seq<char>>, cidr4: Option<u8>, cidr6: Option<u8>) -> Seq<char> {
    name + opt_domain_text(domain) + cidr_text(cidr4, cidr6)
}

/// The body of an `a` mechanism's text is recognised as an `a` mechanism.
proof fn lemma_a_body(domain: Option<Seq<char>>, cidr4: Option<u8>, cidr6: Option<u8>)
    ensures
        named_body("a"@, domain, cidr4, cidr6).len() > 0,
        qualifier_of(named_body("a"@, domain, cidr4, cidr6)[0]) is None,
        named_body("a"@, domain, cidr4, cidr6) != "all"@,
        strip_prefix(named_body("a"@, domain, cidr4, cidr6), "include:"@) is None,
        names_mechanism(named_body("a"@, domain, cidr4, cidr6), "a"@),
{
    reveal_strlit("a");
    reveal_strlit("all");
    reveal_strlit("include:");
    reveal_strlit("a:");
    reveal_strlit("a/");
    reveal_strlit(":");
    reveal_strlit("/");
    assert("a"@ + ":"@ =~= "a:"@);
    assert("a"@ + "/"@ =~= "a/"@);
    let rest = opt_domain_text(domain) + cidr_text(cidr4, cidr6);
    let body = "a"@ + opt_domain_text(domain) + cidr_text(cidr4, cidr6);
    lemma_rest_head(domain, cidr4, cidr6);
    assert(body =~= "a"@ + rest);
    assert(body[0] == 'a');
    if body.len() >= 2 {
        assert(body[1] == rest[0]);
    }
    if body.len() == 3 {
        assert(body[1] != "all"@[1]);
    }
    if body.len() >= 8 {
        assert(body.subrange(0, 8)[0] != "include:"@[0]);
    }
    if rest.len() == 0 {
        assert(body =~= "a"@);
    } else if domain is Some {
        assert(body.subrange(0, 2) =~= "a:"@);
    } else {
        assert(body.subrange(0, 2) =~= "a/"@);
    }
}

/// The body of an `mx` mechanism's text is recognised as an `mx` mechanism.
proof fn lemma_mx_body(domain: Option<Seq<char>>, cidr4: Option<u8>, cidr6: Option<u8>)
    ensures
        named_body("mx"@, domain, cidr4, cidr6).len() > 0,
        qualifier_of(named_body("mx"@, domain, cidr4, cidr6)[0]) is None,
        named_body("mx"@, domain, cidr4, cidr6) != "all"@,
        strip_prefix(named_body("mx"@, domain, cidr4, cidr6), "include:"@) is None,
        !names_mechanism(named_body("mx"@, domain, cidr4, cidr6), "a"@),
        names_mechanism(named_body("mx"@, domain, cidr4, cidr6), "mx"@),
{
    reveal_strlit("a");
    reveal_strlit("mx");
    reveal_strlit("all");
    reveal_strlit("include:");
    reveal_strlit("a:");
    reveal_strlit("a/");
    reveal_strlit("mx:");
    reveal_strlit("mx/");
    reveal_strlit(":");
    reveal_strlit("/");
    assert("mx"@ + ":"@ =~= "mx:"@);
    assert("mx"@ + "/"@ =~= "mx/"@);
    assert("a"@ + ":"@ =~= "a:"@);
    assert("a"@ + "/"@ =~= "a/"@);
    let rest = opt_domain_text(domain) + cidr_text(cidr4, cidr6);
    let body = "mx"@ + opt_domain_text(domain) + cidr_text(cidr4, cidr6);
    lemma_rest_head(domain, cidr4, cidr6);
    assert(body =~= "mx"@ + rest);
    assert(body[0] == 'm');
    assert(body[0] != "all"@[0]);
    if body.len() >= 8 {
        assert(body.subrange(0, 8)[0] != "include:"@[0]);
    }
    assert(body != "a"@) by {
        assert(body[0] != "a"@[0]);
    }
    if body.len() >= 2 {
        assert(body.subrange(0, 2)[0] != "a:"@[0]);
        assert(body.subrange(0, 2)[0] != "a/"@[0]);
    }
    if rest.len() == 0 {
        assert(body =~= "mx"@);
    } else {
        assert(body[2] == rest[0]);
        if domain is Some {
            assert(body.subrange(0, 3) =~= "mx:"@);
        } else {
            assert(body.subrange(0, 3) =~= "mx/"@);
        }
    }
}

proof fn lemma_domain_cidrs(name: Seq<char>, domain: Option<Seq<char>>, cidr4: Option<u8>, cidr6: Option<u8>)
    requires
        name.len() > 0,
        domain matches Some(d) ==> plain_domain(d),
    ensures
        domain_cidr_spec(named_body(name, domain, cidr4, cidr6), name) == Ok::<
            (Option<Seq<char>>, Option<u8>, Option<u8>),
            crate::error::ErrView,
        >((domain, cidr4, cidr6)),
{
    lemma_after_name(name, domain, cidr4, cidr6);
    let dp = match domain {
        Some(d) => d,
        None => Seq::empty(),
    };
    lemma_value_parses(dp, cidr4, cidr6);
}

proof fn lemma_a_round_trip(q: Qualifier, domain: Option<Seq<char>>, cidr4: Option<u8>, cidr6: Option<u8>)
    requires
        domain matches Some(d) ==> plain_domain(d),
    ensures
        mechanism_spec(mech_text(MechView::A { qualifier: q, domain, cidr4, cidr6 })) == Ok::<
            MechView,
            crate::error::ErrView,
        >(MechView::A { qualifier: q, domain, cidr4, cidr6 }),
{
    reveal_strlit("a");
    let m = MechView::A { qualifier: q, domain, cidr4, cidr6 };
    let body = named_body("a"@, domain, cidr4, cidr6);
    lemma_a_body(domain, cidr4, cidr6);
    lemma_split_qualifier(q, body);
    assert(mech_text(m) =~= qualifier_prefix_text(q) + body);
    lemma_domain_cidrs("a"@, domain, cidr4, cidr6);
    assert(split_qualifier(mech_text(m)) == (q, body));
}

proof fn lemma_mx_round_trip(q: Qualifier, domain: Option<Seq<char>>, cidr4: Option<u8>, cidr6: Option<u8>)
    requires
        domain matches Some(d) ==> plain_domain(d),
    ensures
        mechanism_spec(mech_text(MechView::Mx { qualifier: q, domain, cidr4, cidr6 })) == Ok::<
            MechView,
            crate::error::ErrView,
        >(MechView::Mx { qualifier: q, domain, cidr4, cidr6 }),
{
    reveal_strlit("mx");
    let m = MechView::Mx { qualifier: q, domain, cidr4, cidr6 };
    let body = named_body("mx"@, domain, cidr4, cidr6);
    lemma_mx_body(domain, cidr4, cidr6);
    lemma_split_qualifier(q, body);
    assert(mech_text(m) =~= qualifier_prefix_text(q) + body);
    lemma_domain_cidrs("mx"@, domain, cidr4, cidr6);
    assert(split_qualifier(mech_text(m)) == (q, body));
}

/// Reading back the text of an `a` or `mx` mechanism gives the mechanism, for any
/// qualifier and CIDR lengths, with no domain (the current one) or a domain that is
/// non-empty, lowercase and free of `/`: the forms `a`, `a:domain`, `a/cidr`,
/// `a:domain/cidr4`, `a//cidr6`, `a:domain/cidr4//cidr6`, and the same for `mx`.
pub proof fn lemma_mechanism_text_round_trip(m: MechView)
    requires
        m is A || m is Mx,
        (match m {
            MechView::A { domain, .. } => domain,
            MechView::Mx { domain, .. } => domain,
            _ => None,
        }) matches Some(d) ==> plain_domain(d),
    ensures
        mechanism_spec(mech_text(m)) == Ok::<MechView, crate::error::ErrView>(m),
{
    match m {
        MechView::A { qualifier, domain, cidr4, cidr6 } => lemma_a_round_trip(qualifier, domain, cidr4, cidr6),
        MechView::Mx { qualifier, domain, cidr4, cidr6 } => lemma_mx_round_trip(qualifier, domain, cidr4, cidr6),
        _ => {},
    }
}

} // verus!
