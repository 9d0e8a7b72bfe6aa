use spfquery::dns::{DnsAnswer, DnsQuery};
use spfquery::error::{SpfError, SpfResult};
use spfquery::net::IpAddress;
use spfquery::resolver::{CheckProgress, SpfCheckResult, SpfResolver};

fn v4(a: u8, b: u8, c: u8, d: u8) -> IpAddress {
    IpAddress::V4(u32::from_be_bytes([a, b, c, d]))
}

fn raw4(a: u8, b: u8, c: u8, d: u8) -> u32 {
    u32::from_be_bytes([a, b, c, d])
}

fn txt(records: &[&str]) -> DnsAnswer {
    DnsAnswer::Txt(Ok(records.iter().map(|r| vec![r.as_bytes().to_vec()]).collect()))
}

fn mx(records: &[(u16, &str)]) -> DnsAnswer {
    DnsAnswer::Mx(Ok(records.iter().map(|(p, e)| (*p, e.to_string())).collect()))
}

fn no_mx() -> DnsAnswer {
    DnsAnswer::Mx(Err("no records found".to_string()))
}

fn ips4(list: &[u32]) -> DnsAnswer {
    DnsAnswer::Ip { v4: Some(list.to_vec()), v6: None }
}

fn q_txt(d: &str) -> DnsQuery {
    DnsQuery::Txt(d.to_string())
}

fn q_mx(d: &str) -> DnsQuery {
    DnsQuery::Mx(d.to_string())
}

fn q_ip(d: &str) -> DnsQuery {
    DnsQuery::Ip(d.to_string())
}

/// Runs a check, answering each lookup it asks for from `script`, which must
/// list the lookups in the order the SPF check makes them.
fn run(ip: IpAddress, domain: &str, script: Vec<(DnsQuery, DnsAnswer)>) -> SpfResult<SpfCheckResult> {
    let resolver = SpfResolver::new(ip, false);
    let mut answers: Vec<DnsAnswer> = Vec::new();
    let mut script = script.into_iter();
    loop {
        match resolver.check(domain, &answers) {
            CheckProgress::Done(r) => {
                assert!(script.next().is_none(), "the SPF check ended before every answer was read");
                return r;
            }
            CheckProgress::NeedsLookup(q) => {
                let (expected, answer) = script.next().expect("the SPF check asked for a lookup not in the script");
                assert_eq!(q, expected);
                answers.push(answer);
            }
        }
    }
}

fn ok(r: SpfResult<SpfCheckResult>) -> SpfCheckResult {
    match r {
        Ok(v) => v,
        Err(e) => panic!("unexpected error: {}", e.message()),
    }
}

fn err(r: SpfResult<SpfCheckResult>) -> SpfError {
    match r {
        Ok(_) => panic!("expected an error"),
        Err(e) => e,
    }
}

#[test]
fn check_authorized_by_ip4_with_mx_display() {
    let r = ok(run(
        v4(1, 2, 3, 4),
        "Example.COM",
        vec![
            (q_mx("example.com"), mx(&[(20, "mx2.example.com."), (10, "mx1.example.com.")])),
            (q_ip("mx1.example.com"), ips4(&[raw4(5, 6, 7, 8)])),
            (q_ip("mx2.example.com"), DnsAnswer::Ip { v4: None, v6: None }),
            (q_txt("example.com"), txt(&["v=spf1 ip4:1.2.3.0/24 -all"])),
        ],
    ));
    assert_eq!(r.domain, "example.com");
    assert!(r.matched);
    assert_eq!(r.check_ip, v4(1, 2, 3, 4));
    assert_eq!(r.matched_mechanism.as_deref(), Some("ip4:1.2.3.0/24"));
    assert_eq!(r.matched_txt.as_deref(), Some("v=spf1 ip4:1.2.3.0/24 -all"));
    assert_eq!(r.dns_lookups, 1);
    assert_eq!(r.mx_records.len(), 2);
    assert_eq!(r.mx_records[0].0, 10);
    assert_eq!(r.mx_records[0].1, "mx1.example.com");
    assert_eq!(r.mx_records[0].2, vec![v4(5, 6, 7, 8)]);
    assert_eq!(r.mx_records[1].0, 20);
    assert_eq!(r.mx_records[1].1, "mx2.example.com");
    assert!(r.mx_records[1].2.is_empty());
    assert_eq!(
        r.spf_tree.render(false),
        "example.com \"v=spf1 ip4:1.2.3.0/24 -all\"\n└── ip4:1.2.3.0/24 (MATCHED!)\n"
    );
}

#[test]
fn check_include_pass_authorizes() {
    let r = ok(run(
        v4(9, 9, 9, 9),
        "a.com",
        vec![
            (q_mx("a.com"), no_mx()),
            (q_txt("a.com"), txt(&["v=spf1 include:b.com -all"])),
            (q_txt("b.com"), txt(&["v=spf1 ip4:9.9.9.0/24 ~all"])),
        ],
    ));
    assert!(r.matched);
    assert!(r.mx_records.is_empty());
    assert_eq!(r.matched_mechanism.as_deref(), Some("include:b.com"));
    assert_eq!(r.matched_txt.as_deref(), Some("v=spf1 include:b.com -all"));
    assert_eq!(r.dns_lookups, 2);
    assert_eq!(
        r.spf_tree.render(false),
        "a.com \"v=spf1 include:b.com -all\"\n\
         └── include:b.com (MATCHED!)\n\
         \x20   └── b.com \"v=spf1 ip4:9.9.9.0/24 ~all\"\n\
         \x20       └── ip4:9.9.9.0/24 (MATCHED!)\n"
    );
}

#[test]
fn check_not_authorized_walks_every_mechanism() {
    let r = ok(run(
        v4(203, 0, 113, 5),
        "a.com",
        vec![
            (q_mx("a.com"), no_mx()),
            (q_txt("a.com"), txt(&["v=spf1 include:b.com -all"])),
            (q_txt("b.com"), txt(&["v=spf1 ip4:9.9.9.0/24 -all"])),
        ],
    ));
    assert!(!r.matched);
    assert_eq!(r.matched_mechanism.as_deref(), Some("-all"));
    assert_eq!(r.matched_txt.as_deref(), Some("v=spf1 include:b.com -all"));
    assert_eq!(r.dns_lookups, 2);
    assert_eq!(
        r.spf_tree.render(false),
        "a.com \"v=spf1 include:b.com -all\"\n\
         ├── include:b.com ✗\n\
         │   └── b.com \"v=spf1 ip4:9.9.9.0/24 -all\"\n\
         │       ├── ip4:9.9.9.0/24 ✗\n\
         │       └── -all ✗\n\
         └── -all ✗\n"
    );
}

#[test]
fn check_include_with_fail_qualifier_denies() {
    let r = ok(run(
        v4(9, 9, 9, 9),
        "a.com",
        vec![
            (q_mx("a.com"), no_mx()),
            (q_txt("a.com"), txt(&["v=spf1 -include:b.com +all"])),
            (q_txt("b.com"), txt(&["v=spf1 +all"])),
        ],
    ));
    assert!(!r.matched);
    assert_eq!(r.matched_mechanism.as_deref(), Some("-include:b.com"));
}

#[test]
fn check_no_spf_record() {
    let e = err(run(
        v4(1, 2, 3, 4),
        "a.com",
        vec![(q_mx("a.com"), no_mx()), (q_txt("a.com"), txt(&["google-site-verification=abc"]))],
    ));
    match e {
        SpfError::NoSpfRecord(d) => assert_eq!(d, "a.com"),
        other => panic!("unexpected error: {}", other.message()),
    }
}

#[test]
fn check_multiple_spf_records() {
    let e = err(run(
        v4(1, 2, 3, 4),
        "a.com",
        vec![(q_mx("a.com"), no_mx()), (q_txt("a.com"), txt(&["v=spf1 -all", "v=spf1 +all"]))],
    ));
    match e {
        SpfError::MultipleSpfRecords(d) => assert_eq!(d, "a.com"),
        other => panic!("unexpected error: {}", other.message()),
    }
}

#[test]
fn check_txt_failure_is_a_query_error() {
    let e = err(run(
        v4(1, 2, 3, 4),
        "a.com",
        vec![(q_mx("a.com"), no_mx()), (q_txt("a.com"), DnsAnswer::Txt(Err("timed out".to_string())))],
    ));
    match e {
        SpfError::DnsQueryFailed { domain, message } => {
            assert_eq!(domain, "a.com");
            assert_eq!(message, "timed out");
        }
        other => panic!("unexpected error: {}", other.message()),
    }
}

#[test]
fn check_malformed_record() {
    let e = err(run(
        v4(1, 2, 3, 4),
        "a.com",
        vec![(q_mx("a.com"), no_mx()), (q_txt("a.com"), txt(&["v=spf1 foo:bar"]))],
    ));
    match e {
        SpfError::MalformedSpf { domain, reason } => {
            assert_eq!(domain, "a.com");
            assert_eq!(reason, "SPF 记录格式错误 (): 未知机制: foo:bar");
        }
        other => panic!("unexpected error: {}", other.message()),
    }
}

#[test]
fn check_txt_records_joined_from_chunks() {
    let answer = DnsAnswer::Txt(Ok(vec![vec![b"v=spf1 ip4:1.2.3.4".to_vec(), b" -all".to_vec()]]));
    let r = ok(run(
        v4(1, 2, 3, 4),
        "a.com",
        vec![(q_mx("a.com"), no_mx()), (q_txt("a.com"), answer)],
    ));
    assert!(r.matched);
    assert_eq!(r.matched_txt.as_deref(), Some("v=spf1 ip4:1.2.3.4 -all"));
    assert_eq!(r.matched_mechanism.as_deref(), Some("ip4:1.2.3.4/32"));
}

#[test]
fn check_circular_include_is_reported_in_the_tree() {
    let r = ok(run(
        v4(1, 2, 3, 4),
        "a.com",
        vec![
            (q_mx("a.com"), no_mx()),
            (q_txt("a.com"), txt(&["v=spf1 include:b.com -all"])),
            (q_txt("b.com"), txt(&["v=spf1 include:a.com -all"])),
        ],
    ));
    assert!(!r.matched);
    assert_eq!(r.dns_lookups, 2);
    assert_eq!(
        r.spf_tree.render(false),
        "a.com \"v=spf1 include:b.com -all\"\n\
         ├── include:b.com ✗\n\
         │   └── b.com \"v=spf1 include:a.com -all\"\n\
         │       ├── include:a.com \"错误: 检测到循环引用: a.com → b.com\" ✗\n\
         │       └── -all ✗\n\
         └── -all ✗\n"
    );
}

#[test]
fn check_redirect_when_nothing_matches() {
    let r = ok(run(
        v4(2, 2, 2, 2),
        "a.com",
        vec![
            (q_mx("a.com"), no_mx()),
            (q_txt("a.com"), txt(&["v=spf1 ip4:1.1.1.1 redirect=b.com"])),
            (q_txt("b.com"), txt(&["v=spf1 +all"])),
        ],
    ));
    assert!(r.matched);
    assert_eq!(r.matched_mechanism.as_deref(), Some("all"));
    assert_eq!(r.matched_txt.as_deref(), Some("v=spf1 +all"));
    assert_eq!(r.dns_lookups, 2);
    assert_eq!(
        r.spf_tree.render(false),
        "a.com \"v=spf1 ip4:1.1.1.1 redirect=b.com\"\n\
         ├── ip4:1.1.1.1/32 ✗\n\
         └── redirect=b.com ✓\n\
         \x20   └── b.com \"v=spf1 +all\"\n\
         \x20       └── all (MATCHED!)\n"
    );
}

#[test]
fn check_redirect_ignored_when_all_present() {
    let r = ok(run(
        v4(2, 2, 2, 2),
        "a.com",
        vec![(q_mx("a.com"), no_mx()), (q_txt("a.com"), txt(&["v=spf1 ~all redirect=b.com"]))],
    ));
    assert!(!r.matched);
    assert_eq!(r.matched_mechanism.as_deref(), Some("~all"));
    assert_eq!(r.dns_lookups, 1);
}

fn many_a(n: usize, tail: &str) -> String {
    let mut s = String::from("v=spf1");
    for i in 1..=n {
        s.push_str(&format!(" a:h{i}.com"));
    }
    s.push(' ');
    s.push_str(tail);
    s
}

#[test]
fn check_lookup_limit_stops_an_include() {
    let record = many_a(9, "include:b.com -all");
    let mut script = vec![(q_mx("a.com"), no_mx()), (q_txt("a.com"), txt(&[record.as_str()]))];
    for i in 1..=9 {
        script.push((q_ip(&format!("h{i}.com")), ips4(&[raw4(10, 0, 0, i as u8)])));
    }
    let r = ok(run(v4(1, 2, 3, 4), "a.com", script));
    assert!(!r.matched);
    assert_eq!(r.dns_lookups, 11);
    assert!(r
        .spf_tree
        .render(false)
        .contains("include:b.com \"错误: DNS 查询次数已达上限 (11/10)，域名: b.com\" ✗\n"));
}

#[test]
fn check_lookup_limit_fails_a_redirect() {
    let record = many_a(9, "redirect=b.com");
    let mut script = vec![(q_mx("a.com"), no_mx()), (q_txt("a.com"), txt(&[record.as_str()]))];
    for i in 1..=9 {
        script.push((q_ip(&format!("h{i}.com")), ips4(&[])));
    }
    let e = err(run(v4(1, 2, 3, 4), "a.com", script));
    match e {
        SpfError::DnsLookupLimitExceeded { count, domain } => {
            assert_eq!(count, 11);
            assert_eq!(domain, "b.com");
        }
        other => panic!("unexpected error: {}", other.message()),
    }
}

#[test]
fn check_a_lookup_past_the_limit_finds_nothing() {
    let record = many_a(10, "-all");
    let mut script = vec![(q_mx("a.com"), no_mx()), (q_txt("a.com"), txt(&[record.as_str()]))];
    for i in 1..=9 {
        script.push((q_ip(&format!("h{i}.com")), ips4(&[])));
    }
    let r = ok(run(v4(1, 2, 3, 4), "a.com", script));
    assert!(!r.matched);
    assert_eq!(r.dns_lookups, 11);
    assert!(r.spf_tree.render(false).contains("├── a:h10.com \"无 A/AAAA 记录\" ✗\n"));
}

#[test]
fn check_mx_mechanism_matches_an_exchange() {
    let r = ok(run(
        v4(5, 6, 7, 8),
        "a.com",
        vec![
            (q_mx("a.com"), mx(&[(10, "mx1.a.com.")])),
            (q_ip("mx1.a.com"), ips4(&[raw4(5, 6, 7, 8)])),
            (q_txt("a.com"), txt(&["v=spf1 mx -all"])),
            (q_mx("a.com"), mx(&[(10, "mx1.a.com.")])),
            (q_ip("mx1.a.com"), ips4(&[raw4(5, 6, 7, 8)])),
        ],
    ));
    assert!(r.matched);
    assert_eq!(r.matched_mechanism.as_deref(), Some("mx"));
    assert_eq!(r.dns_lookups, 3);
    assert_eq!(
        r.spf_tree.render(false),
        "a.com \"v=spf1 mx -all\"\n\
         └── mx (MATCHED!)\n\
         \x20   └── mx1.a.com \"5.6.7.8\" ✓\n"
    );
}

#[test]
fn check_mx_mechanism_without_records_warns() {
    let r = ok(run(
        v4(5, 6, 7, 8),
        "a.com",
        vec![
            (q_mx("a.com"), no_mx()),
            (q_txt("a.com"), txt(&["v=spf1 mx ?all"])),
            (q_mx("a.com"), no_mx()),
        ],
    ));
    assert!(!r.matched);
    assert_eq!(r.matched_mechanism.as_deref(), Some("?all"));
    assert_eq!(r.dns_lookups, 2);
    assert_eq!(
        r.spf_tree.render(false),
        "a.com \"v=spf1 mx ?all\"\n├── mx \"无 MX 记录\" ⚠\n└── ?all ✗\n"
    );
}

#[test]
fn check_a_mechanism_with_cidr() {
    let r = ok(run(
        v4(1, 2, 3, 77),
        "a.com",
        vec![
            (q_mx("a.com"), no_mx()),
            (q_txt("a.com"), txt(&["v=spf1 a:a.com/24 -all"])),
            (q_ip("a.com"), ips4(&[raw4(1, 2, 3, 4)])),
        ],
    ));
    assert!(r.matched);
    assert_eq!(r.matched_mechanism.as_deref(), Some("a:a.com/24"));
    assert_eq!(
        r.spf_tree.render(false),
        "a.com \"v=spf1 a:a.com/24 -all\"\n└── a:a.com/24 \"1.2.3.4\" (MATCHED!)\n"
    );
}

#[test]
fn check_ptr_mechanism_validates_the_name() {
    let r = ok(run(
        v4(1, 2, 3, 4),
        "a.com",
        vec![
            (q_mx("a.com"), no_mx()),
            (q_txt("a.com"), txt(&["v=spf1 ptr -all"])),
            (DnsQuery::Ptr(v4(1, 2, 3, 4)), DnsAnswer::Ptr(Ok(vec!["host.a.com.".to_string()]))),
            (q_ip("host.a.com"), ips4(&[raw4(1, 2, 3, 4)])),
        ],
    ));
    assert!(r.matched);
    assert_eq!(r.matched_mechanism.as_deref(), Some("ptr"));
    assert_eq!(r.dns_lookups, 3);
    assert_eq!(
        r.spf_tree.render(false),
        "a.com \"v=spf1 ptr -all\"\n└── ptr \"⚠ ptr 机制已废弃 (RFC 7208 §5.5)\" (MATCHED!)\n"
    );
}

#[test]
fn check_exists_with_fail_qualifier_denies() {
    let r = ok(run(
        v4(1, 2, 3, 4),
        "a.com",
        vec![
            (q_mx("a.com"), no_mx()),
            (q_txt("a.com"), txt(&["v=spf1 -exists:bl.example +all"])),
            (q_ip("bl.example"), ips4(&[raw4(127, 0, 0, 2)])),
        ],
    ));
    assert!(!r.matched);
    assert_eq!(r.matched_mechanism.as_deref(), Some("-exists:bl.example"));
}

#[test]
fn check_ip6_mechanism() {
    let ip = IpAddress::V6(0x2001_0db8_0000_0000_0000_0000_0000_0001);
    let r = ok(run(
        ip,
        "a.com",
        vec![(q_mx("a.com"), no_mx()), (q_txt("a.com"), txt(&["v=spf1 ip6:2001:db8::/32 -all"]))],
    ));
    assert!(r.matched);
    assert_eq!(r.matched_mechanism.as_deref(), Some("ip6:2001:db8::/32"));
}

#[test]
fn check_exp_modifier_is_shown() {
    let r = ok(run(
        v4(1, 2, 3, 4),
        "a.com",
        vec![(q_mx("a.com"), no_mx()), (q_txt("a.com"), txt(&["v=spf1 -all exp=explain.a.com"]))],
    ));
    assert!(!r.matched);
    assert_eq!(
        r.spf_tree.render(false),
        "a.com \"v=spf1 -all exp=explain.a.com\"\n\
         ├── -all ✗\n\
         └── exp=explain.a.com \"解释域名（不影响 SPF 结果）\"\n"
    );
}

#[test]
fn check_with_extra_answers_gives_the_same_result() {
    let resolver = SpfResolver::new(v4(1, 2, 3, 4), false);
    let answers = vec![no_mx(), txt(&["v=spf1 -all"]), txt(&["v=spf1 +all"])];
    match resolver.check("a.com", &answers) {
        CheckProgress::Done(Ok(r)) => {
            assert!(!r.matched);
            assert_eq!(r.dns_lookups, 1);
        }
        _ => panic!("expected a completed check"),
    }
}

#[test]
fn check_asks_for_the_first_lookup() {
    let resolver = SpfResolver::new(v4(1, 2, 3, 4), true);
    match resolver.check("A.Com", &Vec::new()) {
        CheckProgress::NeedsLookup(q) => assert_eq!(q, q_mx("a.com")),
        _ => panic!("expected a lookup"),
    }
}

#[test]
fn check_failed_include_leaves_the_chain() {
    let r = ok(run(
        v4(1, 2, 3, 4),
        "a.com",
        vec![
            (q_mx("a.com"), no_mx()),
            (q_txt("a.com"), txt(&["v=spf1 include:b.com include:b.com -all"])),
            (q_txt("b.com"), txt(&["not spf"])),
            (q_txt("b.com"), txt(&["not spf"])),
        ],
    ));
    assert!(!r.matched);
    assert_eq!(r.dns_lookups, 3);
    assert_eq!(
        r.spf_tree.render(false),
        "a.com \"v=spf1 include:b.com include:b.com -all\"\n\
         ├── include:b.com \"错误: 未找到 SPF 记录: b.com\" ✗\n\
         ├── include:b.com \"错误: 未找到 SPF 记录: b.com\" ✗\n\
         └── -all ✗\n"
    );
}

#[test]
fn check_ptr_name_must_end_at_a_label() {
    let r = ok(run(
        v4(1, 2, 3, 4),
        "example.com",
        vec![
            (q_mx("example.com"), no_mx()),
            (q_txt("example.com"), txt(&["v=spf1 ptr -all"])),
            (
                DnsQuery::Ptr(v4(1, 2, 3, 4)),
                DnsAnswer::Ptr(Ok(vec!["evilexample.com.".to_string(), "example.com.".to_string()])),
            ),
            (q_ip("example.com"), ips4(&[raw4(9, 9, 9, 9)])),
        ],
    ));
    assert!(!r.matched);
    assert_eq!(r.matched_mechanism.as_deref(), Some("-all"));
    assert_eq!(r.dns_lookups, 3);
}
