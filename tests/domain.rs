use fanzha_log_query::domain::{DomainMatcher, DomainRule};

fn rules(v: &[&str]) -> Vec<String> {
    v.iter().map(|s| s.to_string()).collect()
}

#[test]
fn wildcard_matches_subdomain() {
    let m = DomainMatcher::new(&rules(&["*.example.com"]));
    assert!(m.matches(b"a.example.com"));
    assert!(m.matches(b"x.y.example.com"));
}

#[test]
fn wildcard_rejects_unrelated_label() {
    let m = DomainMatcher::new(&rules(&["*.example.com"]));
    assert!(!m.matches(b"notexample.com"));
    assert!(!m.matches(b"example.org"));
    assert!(!m.matches(b"com"));
}

#[test]
fn wildcard_suffix_at_start_of_string() {
    // The boundary before the suffix may be the start of the string.
    let m = DomainMatcher::new(&rules(&["*.example.com"]));
    assert!(m.matches(b"example.com"));
}

#[test]
fn exact_domain_is_case_sensitive() {
    let m = DomainMatcher::new(&rules(&["a.example.com"]));
    assert!(m.matches(b"a.example.com"));
    assert!(!m.matches(b"A.example.com"));
    assert!(!m.matches(b"b.a.example.com"));
}

#[test]
fn empty_domain_matcher_matches_everything() {
    let m = DomainMatcher::new(&[]);
    assert!(m.is_none());
    assert!(m.matches(b"anything"));
    assert!(m.matches(b""));
}

#[test]
fn blank_domain_rules_are_skipped() {
    let m = DomainMatcher::new(&rules(&["", "  ", "\t"]));
    assert!(m.is_none());
    assert!(m.matches(b"x.com"));
    let m2 = DomainMatcher::new(&rules(&["  ", "x.com"]));
    assert!(!m2.is_none());
    assert!(!m2.matches(b"y.com"));
}

#[test]
fn domain_rules_are_or_combined() {
    let m = DomainMatcher::new(&rules(&["a.com", "*.b.com"]));
    assert!(m.matches(b"a.com"));
    assert!(m.matches(b"x.b.com"));
    assert!(!m.matches(b"c.com"));
}

#[test]
fn domain_rule_parse_kinds() {
    assert!(matches!(DomainRule::parse("*.x.com"), DomainRule::Wildcard(ref s) if s == b"x.com"));
    assert!(matches!(DomainRule::parse("x.com"), DomainRule::Exact(ref s) if s == b"x.com"));
    assert!(matches!(DomainRule::parse("*x.com"), DomainRule::Exact(ref s) if s == b"*x.com"));
    assert!(DomainRule::parse("*.").matches(b""));
}
