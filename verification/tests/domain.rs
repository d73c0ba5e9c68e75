use rabbit_digger::address::Address;
use rabbit_digger::context::Context;
use rabbit_digger::rule::config::{AnyMatcher, DomainMatcher, DomainMatcherMethod};
use rabbit_digger::rule::domain::{decide, DomainMatcherInner, Match};
use rabbit_digger::rule::matcher::{MatchContext, Matcher};

fn matcher(method: DomainMatcherMethod, patterns: &[&str]) -> DomainMatcher {
    DomainMatcher {
        method,
        domain: patterns.iter().map(|p| p.to_string()).collect(),
    }
}

fn compiled(method: DomainMatcherMethod, patterns: &[&str]) -> DomainMatcherInner {
    DomainMatcherInner::new(matcher(method, patterns)).unwrap()
}

fn match_addr(address: &str, matcher: &DomainMatcher) -> bool {
    let match_context =
        MatchContext::from_context_address(&Context::new(), &Address::parse(address).unwrap()).unwrap();
    matcher.match_rule(&match_context)
}

#[test]
fn test_new() {
    let inner = compiled(DomainMatcherMethod::Match, &["+.google.com"]);
    assert!(inner.test("google.com"));

    let inner = compiled(DomainMatcherMethod::Match, &["+.zzzzzz.me"]);
    assert!(inner.test("www.zzzzzz.me"));
}

#[test]
fn test_domain_matcher() {
    // test keyword
    let m = matcher(DomainMatcherMethod::Keyword, &["example"]);
    assert!(match_addr("example.com:26666", &m));
    assert!(!match_addr("exampl.com:26666", &m));

    // test match
    let m = matcher(DomainMatcherMethod::Match, &["example.com"]);
    assert!(match_addr("example.com:26666", &m));
    assert!(!match_addr("sub.example.com:26666", &m));

    // test suffix
    let m = matcher(DomainMatcherMethod::Suffix, &[".com"]);
    assert!(match_addr("example.com:26666", &m));
    assert!(!match_addr("example.cn:26666", &m));

    // test suffix with +
    let m = matcher(DomainMatcherMethod::Suffix, &["+.com"]);
    assert!(match_addr("example.com:26666", &m));
    assert!(match_addr("sub.example.com:26666", &m));
    assert!(!match_addr("example.cn:26666", &m));
}

#[test]
fn test_any_matcher() {
    let matcher = AnyMatcher {};
    let match_context =
        MatchContext::from_context_address(&Context::new(), &Address::parse("127.0.0.1:26666").unwrap()).unwrap();
    assert!(matcher.match_rule(&match_context));
}

#[test]
fn linear_matcher_needs_a_domain() {
    let m = matcher(DomainMatcherMethod::Keyword, &["1"]);
    assert!(!match_addr("127.0.0.1:26666", &m));
}

#[test]
fn compiled_match_takes_domain_and_subdomains_of_tagged_patterns() {
    let inner = compiled(DomainMatcherMethod::Match, &["+.google.com"]);
    assert!(inner.test("maps.google.com"));
    assert!(inner.test("a.b.google.com"));
    assert!(inner.test("google.com"));
    assert!(!inner.test("example.com"));
    assert!(!inner.test("notgoogle.com"));
    assert!(!inner.test("google.com.cn"));
}

#[test]
fn compiled_match_takes_only_the_domain_of_plain_patterns() {
    let inner = compiled(DomainMatcherMethod::Match, &["example.com"]);
    assert!(inner.test("example.com"));
    assert!(!inner.test("sub.example.com"));
    assert!(!inner.test("example.co"));
}

#[test]
fn compiled_match_lets_the_first_hit_decide() {
    // the longest pattern at the end of the domain is the plain one: it decides, and it is not met
    let inner = compiled(DomainMatcherMethod::Match, &["+.com", "a.com"]);
    assert!(!inner.test("b.a.com"));
    assert!(inner.test("a.com"));
    assert!(inner.test("b.com"));
}

#[test]
fn compiled_keyword_finds_patterns_anywhere() {
    let inner = compiled(DomainMatcherMethod::Keyword, &["example", "+.google"]);
    assert!(inner.test("example.com"));
    assert!(inner.test("my.example.org"));
    assert!(inner.test("google.com"));
    assert!(!inner.test("exampl.com"));
}

#[test]
fn compiled_suffix_is_met_by_a_pattern_at_the_end_of_the_domain() {
    let inner = compiled(DomainMatcherMethod::Suffix, &[".com"]);
    assert!(inner.test("example.com"));
    assert!(!inner.test("example.cn"));
    assert!(!inner.test("a.com.cn"));
    assert!(!inner.test(""));
    let inner = compiled(DomainMatcherMethod::Suffix, &["+.com"]);
    assert!(inner.test("example.com"));
    assert!(inner.test("sub.example.com"));
    assert!(inner.test("telecom"));
    assert!(!inner.test("example.cn"));
    assert!(!inner.test("com.example"));
    let inner = compiled(DomainMatcherMethod::Suffix, &["+."]);
    assert!(inner.test(""));
    assert!(inner.test("example.com"));
    let inner = compiled(DomainMatcherMethod::Suffix, &[""]);
    assert!(inner.test(""));
}

#[test]
fn linear_match_takes_domain_and_subdomains_of_tagged_patterns() {
    let m = matcher(DomainMatcherMethod::Match, &["+.google.com"]);
    assert!(m.test("maps.google.com"));
    assert!(m.test("a.b.google.com"));
    assert!(m.test("google.com"));
    assert!(!m.test("example.com"));
    assert!(!m.test("notgoogle.com"));
    assert!(!m.test("google.com.cn"));
    assert!(match_addr("maps.google.com:443", &m));
    assert!(!match_addr("example.com:443", &m));
    // a plain pattern takes the domain alone
    let m = matcher(DomainMatcherMethod::Match, &["google.com"]);
    assert!(m.test("google.com"));
    assert!(!m.test("maps.google.com"));
    assert!(!m.test("notgoogle.com"));
}

#[test]
fn linear_keyword_and_suffix_leave_the_tag_out() {
    let m = matcher(DomainMatcherMethod::Keyword, &["+.google"]);
    assert!(m.test("google.com"));
    assert!(m.test("my.google.org"));
    assert!(!m.test("example.com"));
    let m = matcher(DomainMatcherMethod::Suffix, &["+.com"]);
    assert!(m.test("example.com"));
    assert!(m.test("sub.example.com"));
    assert!(m.test("telecom"));
    assert!(!m.test("example.cn"));
}

#[test]
fn compiled_and_linear_agree_on_keyword_and_suffix() {
    let patterns = ["+.example", "a.com", "+.net", "x", ".org"];
    let domains = ["example.com", "a.com", "b.a.com", "internet.org", "", "x", "xx", "com.a", "my.net", "netx"];
    for method in [DomainMatcherMethod::Keyword, DomainMatcherMethod::Suffix] {
        let linear = matcher(method, &patterns);
        let inner = compiled(method, &patterns);
        for d in domains {
            assert_eq!(linear.test(d), inner.test(d), "{:?} {}", method, d);
        }
    }
}

#[test]
fn compiled_and_linear_agree_on_match_where_the_longest_pattern_is_met() {
    let patterns = ["+.google.com", "+.example.org"];
    let domains = ["google.com", "maps.google.com", "notgoogle.com", "example.org", "a.example.org", "org", ""];
    let linear = matcher(DomainMatcherMethod::Match, &patterns);
    let inner = compiled(DomainMatcherMethod::Match, &patterns);
    for d in domains {
        assert_eq!(linear.test(d), inner.test(d), "{}", d);
    }
}

#[test]
fn compiled_and_linear_agree_without_tags() {
    let patterns = ["example", "a.com", "net", "x"];
    let domains = ["example.com", "a.com", "b.a.com", "internet.org", "", "x", "xx", "com.a"];
    for method in [DomainMatcherMethod::Keyword, DomainMatcherMethod::Match, DomainMatcherMethod::Suffix] {
        let linear = matcher(method, &patterns);
        let inner = compiled(method, &patterns);
        for d in domains {
            assert_eq!(linear.test(d), inner.test(d), "{:?} {}", method, d);
        }
    }
}

#[test]
fn compiled_match_is_taken_by_the_scan_too() {
    let patterns = ["+.com", "a.com", "+.b.org", "org"];
    let domains = ["a.com", "b.a.com", "c.com", "b.org", "x.b.org", "org", "xorg", ""];
    let linear = matcher(DomainMatcherMethod::Match, &patterns);
    let inner = compiled(DomainMatcherMethod::Match, &patterns);
    for d in domains {
        assert!(!inner.test(d) || linear.test(d), "{}", d);
    }
    // the longest pattern at the end of the domain decides alone
    assert!(linear.test("b.a.com"));
    assert!(!inner.test("b.a.com"));
}

#[test]
fn decide_reads_the_first_match() {
    let tags = vec![true, false];
    let hay = b"moc.elgoog.spam";
    let none: Option<Match> = None;
    assert!(!decide(DomainMatcherMethod::Keyword, &tags, hay, none));
    let tagged = Some(Match { pattern: 0, start: 0, end: 10 });
    let plain = Some(Match { pattern: 1, start: 0, end: 10 });
    let whole = Some(Match { pattern: 1, start: 0, end: 15 });
    let inside = Some(Match { pattern: 0, start: 4, end: 10 });
    let unknown = Some(Match { pattern: 7, start: 0, end: 10 });
    assert!(decide(DomainMatcherMethod::Keyword, &tags, hay, inside));
    assert!(decide(DomainMatcherMethod::Match, &tags, hay, tagged));
    assert!(!decide(DomainMatcherMethod::Match, &tags, hay, plain));
    assert!(decide(DomainMatcherMethod::Match, &tags, hay, whole));
    assert!(!decide(DomainMatcherMethod::Match, &tags, hay, inside));
    assert!(!decide(DomainMatcherMethod::Match, &tags, hay, unknown));
    assert!(decide(DomainMatcherMethod::Suffix, &tags, hay, tagged));
    assert!(decide(DomainMatcherMethod::Suffix, &tags, hay, plain));
    assert!(!decide(DomainMatcherMethod::Suffix, &tags, hay, inside));
    assert!(!decide(DomainMatcherMethod::Suffix, &tags, hay, Some(Match { pattern: 0, start: 15, end: 15 })));
    assert!(!decide(DomainMatcherMethod::Suffix, &tags, hay, none));
    // a tagged pattern is met only where a dot follows
    assert!(!decide(DomainMatcherMethod::Match, &tags, b"moc.elgoogx", Some(Match { pattern: 0, start: 0, end: 10 })));
}

#[test]
fn method_names() {
    assert_eq!(DomainMatcherMethod::try_from("keyword".to_string()).unwrap(), DomainMatcherMethod::Keyword);
    assert_eq!(DomainMatcherMethod::try_from("suffix".to_string()).unwrap(), DomainMatcherMethod::Suffix);
    assert_eq!(DomainMatcherMethod::try_from("match".to_string()).unwrap(), DomainMatcherMethod::Match);
    assert!(DomainMatcherMethod::try_from("Match".to_string()).is_err());
    assert!(DomainMatcherMethod::try_from("".to_string()).is_err());
}
