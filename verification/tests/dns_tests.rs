use spfquery::dns::{count_lookup, ip_list, sort_mx_records, spf_texts, strip_names, strip_trailing_dot};
use spfquery::error::SpfError;
use spfquery::net::IpAddress;
use spfquery::tree::render_mx_tree;

#[test]
fn trailing_dot_is_removed_once() {
    assert_eq!(strip_trailing_dot("mx.example.com.".to_string()), "mx.example.com");
    assert_eq!(strip_trailing_dot("mx.example.com".to_string()), "mx.example.com");
    assert_eq!(strip_trailing_dot("a..".to_string()), "a.");
    assert_eq!(strip_trailing_dot(String::new()), "");
}

#[test]
fn lookups_are_counted_up_to_the_limit() {
    let mut count: u32 = 0;
    for i in 1..=10 {
        assert!(count_lookup(&mut count, "x.com").is_ok());
        assert_eq!(count, i);
    }
    match count_lookup(&mut count, "y.com") {
        Err(SpfError::DnsLookupLimitExceeded { count: c, domain }) => {
            assert_eq!(c, 11);
            assert_eq!(domain, "y.com");
        }
        _ => panic!("expected the limit error"),
    }
    assert_eq!(count, 11);
}

#[test]
fn spf_texts_keep_only_spf_records() {
    let records = vec![
        vec![b"google-site-verification=x".to_vec()],
        vec![b"v=spf1 ".to_vec(), b"include:a.com".to_vec(), b" -all".to_vec()],
        vec![b"v=spf10 nope".to_vec()],
        vec![b"V=SPF1 -all".to_vec()],
    ];
    let texts = spf_texts(&records);
    assert_eq!(texts, vec!["v=spf1 include:a.com -all".to_string(), "v=spf10 nope".to_string()]);
}

#[test]
fn spf_texts_decode_invalid_utf8_lossily() {
    let records = vec![vec![b"v=spf1 ".to_vec(), vec![0xff], b" -all".to_vec()]];
    assert_eq!(spf_texts(&records), vec!["v=spf1 \u{fffd} -all".to_string()]);
}

#[test]
fn mx_records_sorted_stably_by_preference() {
    let raw = vec![
        (20, "b.".to_string()),
        (10, "a.".to_string()),
        (20, "c".to_string()),
        (5, "d.".to_string()),
    ];
    let sorted = sort_mx_records(&raw);
    assert_eq!(
        sorted,
        vec![
            (5, "d".to_string()),
            (10, "a".to_string()),
            (20, "b".to_string()),
            (20, "c".to_string()),
        ]
    );
}

#[test]
fn ptr_names_lose_trailing_dots() {
    assert_eq!(
        strip_names(&vec!["a.example.".to_string(), "b.example".to_string()]),
        vec!["a.example".to_string(), "b.example".to_string()]
    );
}

#[test]
fn ip_list_puts_ipv4_first() {
    let l = ip_list(&Some(vec![1, 2]), &Some(vec![3]));
    assert_eq!(l, vec![IpAddress::V4(1), IpAddress::V4(2), IpAddress::V6(3)]);
    assert_eq!(ip_list(&None, &Some(vec![7])), vec![IpAddress::V6(7)]);
    assert!(ip_list(&None, &None).is_empty());
}

#[test]
fn mx_tree_rendering() {
    let recs = vec![
        (
            10,
            "mx1.example.com".to_string(),
            vec![IpAddress::V4(u32::from_be_bytes([1, 2, 3, 4])), IpAddress::V4(u32::from_be_bytes([5, 6, 7, 8]))],
        ),
        (20, "mx2.example.com".to_string(), vec![]),
    ];
    assert_eq!(
        render_mx_tree(&recs, false),
        "  ├── mx1.example.com (priority: 10)\n\
         \x20   │   ├── 1.2.3.4\n\
         \x20   │   └── 5.6.7.8\n\
         \x20 └── mx2.example.com (priority: 20)\n"
    );
    assert_eq!(
        render_mx_tree(&recs[1..].to_vec(), true),
        "  └── \u{1b}[36mmx2.example.com (priority: 20)\u{1b}[39m\n"
    );
}
