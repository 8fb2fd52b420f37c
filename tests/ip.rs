use fanzha_log_query::ip::{parse_candidate, parse_dotted_quad, Addr, IPMatcher, IPRule};

fn rules(v: &[&str]) -> Vec<String> {
    v.iter().map(|s| s.to_string()).collect()
}

fn v4(a: u8, b: u8, c: u8, d: u8) -> u32 {
    u32::from_be_bytes([a, b, c, d])
}

#[test]
fn exact_ip_is_byte_for_byte() {
    let m = IPMatcher::new(&rules(&["10.0.0.1"])).unwrap();
    assert!(m.matches(b"10.0.0.1"));
    assert!(!m.matches(b"010.0.0.1"));
    let m2 = IPMatcher::new(&rules(&["010.0.0.1"])).unwrap();
    assert!(!m2.matches(b"10.0.0.1"));
}

#[test]
fn cidr_24_becomes_prefix() {
    let r = IPRule::parse("10.1.2.0/24").unwrap();
    assert!(matches!(r, IPRule::Prefix(ref p) if p == b"10.1.2."));
    assert!(r.matches(b"10.1.2.3"));
    assert!(!r.matches(b"10.1.20.3"));
    assert!(!r.matches(b"10.1.3.3"));
}

#[test]
fn cidr_16_and_8_become_prefixes() {
    assert!(matches!(IPRule::parse("192.168.0.0/16").unwrap(), IPRule::Prefix(ref p) if p == b"192.168."));
    assert!(matches!(IPRule::parse("10.0.0.0/8").unwrap(), IPRule::Prefix(ref p) if p == b"10."));
    let r = IPRule::parse("10.0.0.0/8").unwrap();
    assert!(r.matches(b"10.255.0.1"));
    assert!(!r.matches(b"100.0.0.1"));
}

#[test]
fn cidr_general_containment() {
    let r = IPRule::parse("10.1.16.0/20").unwrap();
    assert!(matches!(r, IPRule::Cidr(Addr::V4(n), 20) if n == v4(10, 1, 16, 0)));
    assert!(r.matches(b"10.1.16.1"));
    assert!(r.matches(b"10.1.31.255"));
    assert!(!r.matches(b"10.1.32.0"));
    assert!(!r.matches(b"10.1.15.255"));
    assert!(!r.matches(b"not-an-ip"));
}

#[test]
fn cidr_zero_and_full_length() {
    let all = IPRule::parse("0.0.0.0/0").unwrap();
    assert!(all.matches(b"255.255.255.255"));
    assert!(!all.matches(b"::1"));
    let host = IPRule::parse("1.2.3.4/32").unwrap();
    assert!(host.matches(b"1.2.3.4"));
    assert!(!host.matches(b"1.2.3.5"));
}

#[test]
fn ipv6_cidr_uses_general_parser() {
    let r = IPRule::parse("2001:db8::/32").unwrap();
    assert!(r.matches(b"2001:db8::1"));
    assert!(r.matches(b"2001:0db8:ffff:ffff:ffff:ffff:ffff:ffff"));
    assert!(!r.matches(b"2001:db9::1"));
    assert!(!r.matches(b"10.0.0.1"));
    let all6 = IPRule::parse("::/0").unwrap();
    assert!(all6.matches(b"ffff::1"));
}

#[test]
fn cidr_with_host_bits_is_taken_literally() {
    let r = IPRule::parse("10.1.2.3/24").unwrap();
    assert!(matches!(r, IPRule::Exact(ref t) if t == b"10.1.2.3/24"));
}

#[test]
fn range_rule_inclusive() {
    let r = IPRule::parse("10.0.0.5 - 10.0.0.9").unwrap();
    assert!(matches!(r, IPRule::Range(Addr::V4(a), Addr::V4(b)) if a == v4(10, 0, 0, 5) && b == v4(10, 0, 0, 9)));
    assert!(r.matches(b"10.0.0.5"));
    assert!(r.matches(b"10.0.0.7"));
    assert!(r.matches(b"10.0.0.9"));
    assert!(!r.matches(b"10.0.0.4"));
    assert!(!r.matches(b"10.0.0.10"));
    assert!(!r.matches(b"garbage"));
}

#[test]
fn range_orders_ipv4_before_ipv6() {
    let r = IPRule::parse("10.0.0.0-::1").unwrap();
    assert!(r.matches(b"10.0.0.1"));
    assert!(r.matches(b"::"));
    assert!(!r.matches(b"::2"));
}

#[test]
fn range_with_bad_endpoint_is_an_error() {
    let e = IPRule::parse("10.0.0.1-banana").unwrap_err();
    assert_eq!(e.rule, "10.0.0.1-banana");
    assert!(IPRule::parse("10.0.0.1-10.0.0.2-10.0.0.3").is_err());
    let e2 = IPMatcher::new(&rules(&["10.0.0.1", "1-2"])).unwrap_err();
    assert_eq!(e2.rule, "1-2");
}

#[test]
fn empty_ip_matcher_matches_everything() {
    let m = IPMatcher::new(&rules(&["", "   "])).unwrap();
    assert!(m.is_none());
    assert!(m.matches(b"whatever"));
}

#[test]
fn ip_rules_are_or_combined() {
    let m = IPMatcher::new(&rules(&["10.0.0.1", "192.168.0.0/16"])).unwrap();
    assert!(!m.is_none());
    assert!(m.matches(b"10.0.0.1"));
    assert!(m.matches(b"192.168.5.5"));
    assert!(!m.matches(b"172.16.0.1"));
}

#[test]
fn dotted_quad_fast_path() {
    assert_eq!(parse_dotted_quad(b"1.2.3.4"), Some(v4(1, 2, 3, 4)));
    assert_eq!(parse_dotted_quad(b"255.255.255.255"), Some(u32::MAX));
    assert_eq!(parse_dotted_quad(b"010.0.0.1"), Some(v4(10, 0, 0, 1)));
    assert_eq!(parse_dotted_quad(b"256.1.1.1"), None);
    assert_eq!(parse_dotted_quad(b"1.2.3"), None);
    assert_eq!(parse_dotted_quad(b"1.2.3.4.5"), None);
    assert_eq!(parse_dotted_quad(b"1..3.4"), None);
    assert_eq!(parse_dotted_quad(b"1000.1.1.1"), None);
    assert_eq!(parse_dotted_quad(b"1.2.3.4."), None);
}

#[test]
fn candidate_fast_path_and_fallback() {
    assert_eq!(parse_candidate(b"10.1.2.3"), Some(Addr::V4(v4(10, 1, 2, 3))));
    assert_eq!(parse_candidate(b"999999999999999"), None);
    assert_eq!(parse_candidate(b"::1"), Some(Addr::V6(1)));
    assert_eq!(parse_candidate(b"::ffff:1.2.3.4"), Some(Addr::V6(0xffff_0102_0304)));
    assert_eq!(parse_candidate(b"x"), None);
    assert_eq!(parse_candidate(b""), None);
}

#[test]
fn prefix_and_cidr_agree_on_canonical_text() {
    let prefix = IPRule::parse("10.1.2.0/24").unwrap();
    for (text, inside) in [("10.1.2.0", true), ("10.1.2.255", true), ("10.1.21.1", false), ("10.11.2.1", false), ("110.1.2.1", false)] {
        let a = match parse_candidate(text.as_bytes()) {
            Some(Addr::V4(a)) => a,
            _ => panic!("not an address"),
        };
        let contained = a >> 8 == v4(10, 1, 2, 0) >> 8;
        assert_eq!(contained, inside);
        assert_eq!(prefix.matches(text.as_bytes()), inside);
    }
}

#[test]
fn candidate_bytes_that_are_not_utf8() {
    assert_eq!(parse_candidate(b"\xff\xfe::1"), None);
    let r = IPRule::parse("::/0").unwrap();
    assert!(!r.matches(b"::\xff"));
    assert!(r.matches(b"::"));
}
