use spfquery::error::SpfError;
use spfquery::spf::{parse_mechanism, parse_spf, parse_terms, Mechanism, Qualifier};
use spfquery::text::{split_terms, trim_str};

fn v4(text: &str) -> u32 {
    let n: ipnetwork::Ipv4Network = text.parse().unwrap();
    u32::from(n.ip())
}

#[test]
fn test_parse_basic_spf() {
    let record = parse_spf("v=spf1 ip4:192.168.1.0/24 -all").unwrap();
    assert_eq!(record.mechanisms.len(), 2);
    assert!(matches!(record.mechanisms[0], Mechanism::Ip4 { .. }));
    assert!(matches!(
        record.mechanisms[1],
        Mechanism::All {
            qualifier: Qualifier::Fail
        }
    ));
}

#[test]
fn test_parse_include() {
    let record = parse_spf("v=spf1 include:_spf.google.com ~all").unwrap();
    assert_eq!(record.mechanisms.len(), 2);
    match &record.mechanisms[0] {
        Mechanism::Include { qualifier, domain } => {
            assert_eq!(*qualifier, Qualifier::Pass);
            assert_eq!(domain, "_spf.google.com");
        }
        _ => panic!("Expected Include mechanism"),
    }
}

#[test]
fn test_parse_a_mechanism_variants() {
    let r = parse_spf("v=spf1 a").unwrap();
    match &r.mechanisms[0] {
        Mechanism::A {
            domain,
            cidr4,
            cidr6,
            ..
        } => {
            assert!(domain.is_none());
            assert!(cidr4.is_none());
            assert!(cidr6.is_none());
        }
        _ => panic!(),
    }

    let r = parse_spf("v=spf1 a:example.com").unwrap();
    match &r.mechanisms[0] {
        Mechanism::A { domain, cidr4, .. } => {
            assert_eq!(domain.as_deref(), Some("example.com"));
            assert!(cidr4.is_none());
        }
        _ => panic!(),
    }

    let r = parse_spf("v=spf1 a:example.com/24").unwrap();
    match &r.mechanisms[0] {
        Mechanism::A { domain, cidr4, .. } => {
            assert_eq!(domain.as_deref(), Some("example.com"));
            assert_eq!(*cidr4, Some(24));
        }
        _ => panic!(),
    }

    let r = parse_spf("v=spf1 a:example.com/24//96").unwrap();
    match &r.mechanisms[0] {
        Mechanism::A {
            domain,
            cidr4,
            cidr6,
            ..
        } => {
            assert_eq!(domain.as_deref(), Some("example.com"));
            assert_eq!(*cidr4, Some(24));
            assert_eq!(*cidr6, Some(96));
        }
        _ => panic!(),
    }
}

#[test]
fn test_parse_mx_mechanism() {
    let r = parse_spf("v=spf1 mx mx:mail.example.com/16 -all").unwrap();
    assert_eq!(r.mechanisms.len(), 3);

    match &r.mechanisms[0] {
        Mechanism::Mx { domain, .. } => assert!(domain.is_none()),
        _ => panic!(),
    }
    match &r.mechanisms[1] {
        Mechanism::Mx { domain, cidr4, .. } => {
            assert_eq!(domain.as_deref(), Some("mail.example.com"));
            assert_eq!(*cidr4, Some(16));
        }
        _ => panic!(),
    }
}

#[test]
fn test_parse_ip4() {
    let r = parse_spf("v=spf1 ip4:10.0.0.0/8 ip4:172.16.0.1 -all").unwrap();
    match &r.mechanisms[0] {
        Mechanism::Ip4 { network, .. } => {
            assert_eq!(network.prefix(), 8);
            assert_eq!(network.ip(), v4("10.0.0.0"));
        }
        _ => panic!(),
    }
    match &r.mechanisms[1] {
        Mechanism::Ip4 { network, .. } => {
            assert_eq!(network.prefix(), 32);
            assert_eq!(network.ip(), v4("172.16.0.1"));
        }
        _ => panic!(),
    }
}

#[test]
fn test_parse_ip6() {
    let r = parse_spf("v=spf1 ip6:2001:db8::/32 -all").unwrap();
    match &r.mechanisms[0] {
        Mechanism::Ip6 { network, .. } => {
            assert_eq!(network.prefix(), 32);
        }
        _ => panic!(),
    }
}

#[test]
fn test_parse_ptr() {
    let r = parse_spf("v=spf1 ptr ptr:example.com -all").unwrap();
    match &r.mechanisms[0] {
        Mechanism::Ptr { domain, .. } => assert!(domain.is_none()),
        _ => panic!(),
    }
    match &r.mechanisms[1] {
        Mechanism::Ptr { domain, .. } => {
            assert_eq!(domain.as_deref(), Some("example.com"));
        }
        _ => panic!(),
    }
}

#[test]
fn test_parse_exists() {
    let r = parse_spf("v=spf1 exists:%{ir}.%{l1r+-}._spf.hotmail.com -all").unwrap();
    match &r.mechanisms[0] {
        Mechanism::Exists { domain, .. } => {
            assert_eq!(domain, "%{ir}.%{l1r+-}._spf.hotmail.com");
        }
        _ => panic!(),
    }
}

#[test]
fn test_parse_redirect() {
    let r = parse_spf("v=spf1 redirect=_spf.example.com").unwrap();
    assert!(r.mechanisms.is_empty());
    assert_eq!(r.redirect_domain(), Some("_spf.example.com"));
}

#[test]
fn test_parse_qualifiers() {
    let r = parse_spf("v=spf1 +ip4:1.0.0.0/8 -ip4:2.0.0.0/8 ~ip4:3.0.0.0/8 ?ip4:4.0.0.0/8").unwrap();
    assert_eq!(r.mechanisms[0].qualifier(), Qualifier::Pass);
    assert_eq!(r.mechanisms[1].qualifier(), Qualifier::Fail);
    assert_eq!(r.mechanisms[2].qualifier(), Qualifier::SoftFail);
    assert_eq!(r.mechanisms[3].qualifier(), Qualifier::Neutral);
}

#[test]
fn test_no_vspf1_prefix() {
    assert!(parse_spf("spf1 ip4:1.2.3.4").is_err());
}

#[test]
fn test_has_all_mechanism() {
    let r = parse_spf("v=spf1 include:x.com -all").unwrap();
    assert!(r.has_all_mechanism());

    let r = parse_spf("v=spf1 redirect=y.com").unwrap();
    assert!(!r.has_all_mechanism());
}

#[test]
fn test_display_mechanism() {
    let r = parse_spf("v=spf1 include:_spf.google.com -all").unwrap();
    assert_eq!(r.mechanisms[0].to_string(), "include:_spf.google.com");
    assert_eq!(r.mechanisms[1].to_string(), "-all");
}

#[test]
fn test_complex_real_world_spf() {
    let spf = "v=spf1 include:_spf.google.com include:spf.protection.outlook.com ip4:203.0.113.0/24 mx a:mail.example.com/24 -all";
    let r = parse_spf(spf).unwrap();
    assert_eq!(r.mechanisms.len(), 6);
}

// ---- further cases ----

#[test]
fn parse_keeps_trimmed_raw_text_and_lowercases_domains() {
    let r = parse_spf("  v=spf1 include:EXAMPLE.Com exp=Explain.Example.com  ").unwrap();
    assert_eq!(r.raw, "v=spf1 include:EXAMPLE.Com exp=Explain.Example.com");
    match &r.mechanisms[0] {
        Mechanism::Include { domain, .. } => assert_eq!(domain, "example.com"),
        _ => panic!(),
    }
    assert_eq!(r.modifiers.len(), 1);
    assert_eq!(r.redirect_domain(), None);
}

#[test]
fn parse_requires_space_after_version() {
    match parse_spf("v=spf1a -all") {
        Err(SpfError::MalformedSpf { domain, reason }) => {
            assert_eq!(domain, "");
            assert_eq!(reason, "v=spf1 后必须为空格");
        }
        _ => panic!(),
    }
    match parse_spf("spf1 ip4:1.2.3.4") {
        Err(SpfError::MalformedSpf { reason, .. }) => assert_eq!(reason, "记录不以 v=spf1 开头"),
        _ => panic!(),
    }
    assert!(parse_spf("v=spf1").unwrap().mechanisms.is_empty());
}

#[test]
fn parse_unknown_mechanism_is_an_error() {
    match parse_spf("v=spf1 foo -all") {
        Err(SpfError::MalformedSpf { reason, .. }) => assert_eq!(reason, "未知机制: foo"),
        _ => panic!(),
    }
    // unknown modifiers are ignored
    assert_eq!(parse_spf("v=spf1 foo=bar -all").unwrap().mechanisms.len(), 1);
}

#[test]
fn parse_bad_cidr_and_ip_errors() {
    match parse_spf("v=spf1 a/xx") {
        Err(SpfError::InvalidCidr(s)) => assert_eq!(s, "xx"),
        _ => panic!(),
    }
    match parse_spf("v=spf1 mx:example.com/24//300") {
        Err(SpfError::InvalidCidr(s)) => assert_eq!(s, "300"),
        _ => panic!(),
    }
    match parse_spf("v=spf1 ip4:999.1.1.1") {
        Err(SpfError::InvalidIp(s)) => assert!(s.starts_with("999.1.1.1: ")),
        _ => panic!(),
    }
    match parse_spf("v=spf1 ip4:10.0.0.0/40") {
        Err(SpfError::InvalidCidr(s)) => assert!(s.starts_with("10.0.0.0/40: ")),
        _ => panic!(),
    }
}

#[test]
fn parse_cidr_forms() {
    let r = parse_spf("v=spf1 a//64 mx/+24 a/24 a:a mx:mx/16").unwrap();
    match &r.mechanisms[0] {
        Mechanism::A { domain, cidr4, cidr6, .. } => {
            // "a//64": the current domain, IPv6 prefix only
            assert_eq!(domain.as_deref(), None);
            assert_eq!(*cidr4, None);
            assert_eq!(*cidr6, Some(64));
        }
        _ => panic!(),
    }
    match &r.mechanisms[1] {
        Mechanism::Mx { domain, cidr4, .. } => {
            assert_eq!(domain.as_deref(), None);
            assert_eq!(*cidr4, Some(24));
        }
        _ => panic!(),
    }
    match &r.mechanisms[2] {
        Mechanism::A { domain, cidr4, .. } => {
            assert_eq!(domain.as_deref(), None);
            assert_eq!(*cidr4, Some(24));
        }
        _ => panic!(),
    }
    match &r.mechanisms[3] {
        Mechanism::A { domain, .. } => assert_eq!(domain.as_deref(), Some("a")),
        _ => panic!(),
    }
    match &r.mechanisms[4] {
        Mechanism::Mx { domain, cidr4, .. } => {
            assert_eq!(domain.as_deref(), Some("mx"));
            assert_eq!(*cidr4, Some(16));
        }
        _ => panic!(),
    }
}

#[test]
fn mechanism_text_round_trips() {
    for text in ["a", "a/24", "a//64", "a/24//64", "mx:mail.example.com/28", "-mx//48", "?a:x.org"] {
        let m = parse_mechanism(text).unwrap();
        let again = parse_mechanism(&m.to_string()).unwrap();
        assert_eq!(again.to_string(), m.to_string());
        assert_eq!(m.to_string(), text);
    }
}

#[test]
fn mechanism_display_all_kinds() {
    let r = parse_spf(
        "v=spf1 ?a:x.org/24//64 ~mx ip4:10.1.2.3 -ip6:2001:db8::/32 ptr:p.org exists:e.org +all",
    )
    .unwrap();
    let texts: Vec<String> = r.mechanisms.iter().map(|m| m.to_string()).collect();
    assert_eq!(
        texts,
        vec![
            "?a:x.org/24//64",
            "~mx",
            "ip4:10.1.2.3/32",
            "-ip6:2001:db8::/32",
            "ptr:p.org",
            "exists:e.org",
            "all",
        ]
    );
    let names: Vec<&str> = r.mechanisms.iter().map(|m| m.name()).collect();
    assert_eq!(names, vec!["a", "mx", "ip4", "ip6", "ptr", "exists", "all"]);
}

#[test]
fn qualifier_symbols_round_trip() {
    for q in [Qualifier::Pass, Qualifier::Fail, Qualifier::SoftFail, Qualifier::Neutral] {
        assert_eq!(Qualifier::from_prefix(q.symbol()), Some(q));
    }
    assert_eq!(Qualifier::from_prefix('x'), None);
}

#[test]
fn error_messages() {
    let e = SpfError::CircularReference {
        chain: vec!["a.com".to_string(), "b.com".to_string()],
    };
    assert_eq!(e.message(), "检测到循环引用: a.com → b.com");
    let e = SpfError::DnsLookupLimitExceeded { count: 11, domain: "x.com".to_string() };
    assert_eq!(e.message(), "DNS 查询次数已达上限 (11/10)，域名: x.com");
    let e = SpfError::NoSpfRecord("x.com".to_string());
    assert_eq!(e.message(), "未找到 SPF 记录: x.com");
}

#[test]
fn parse_terms_builds_mechanisms_and_modifiers() {
    let terms: Vec<String> = ["ip4:10.0.0.0/8", "redirect=B.com", "foo=bar", "-all"].iter().map(|t| t.to_string()).collect();
    let (mechs, mods) = parse_terms(&terms).unwrap();
    let texts: Vec<String> = mechs.iter().map(|m| m.to_string()).collect();
    assert_eq!(texts, vec!["ip4:10.0.0.0/8".to_string(), "-all".to_string()]);
    assert_eq!(mods.len(), 1);
    let bad: Vec<String> = vec!["a".to_string(), "bogus".to_string(), "-all".to_string()];
    match parse_terms(&bad) {
        Err(SpfError::MalformedSpf { reason, .. }) => assert_eq!(reason, "未知机制: bogus"),
        _ => panic!(),
    }
}

#[test]
fn trim_and_split_follow_unicode_whitespace() {
    assert_eq!(trim_str("\u{3000} \tv=spf1 -all\r\n\u{a0}"), "v=spf1 -all");
    assert_eq!(trim_str("   "), "");
    assert_eq!(
        split_terms(" a\u{2003}b\t\tc\u{85}"),
        vec!["a".to_string(), "b".to_string(), "c".to_string()]
    );
    assert!(split_terms(" \n ").is_empty());
    let r = parse_spf("v=spf1 a\u{2002}-all").unwrap();
    assert_eq!(r.mechanisms.len(), 2);
}
