use cloudtun::route::{MatchType, RouteMatcher, Trie};
use cloudtun::rules::parse_rules;

fn load(text: &str) -> RouteMatcher {
    match RouteMatcher::load(MatchType::Proxy, Some(text.as_bytes())) {
        Ok(m) => m,
        Err(e) => panic!("conflict at {}", e.index),
    }
}

#[test]
fn match_type_names() {
    assert_eq!(MatchType::Deny.as_str(), "deny");
    assert_eq!(MatchType::Direct.as_str(), "direct");
    assert_eq!(MatchType::Proxy.as_str(), "proxy");
}

#[test]
fn parse_rules_skips_comments_blank_and_malformed_lines() {
    let text = "# comment\n\n  baidu.com : direct \nads.example.com:deny\nbad line\n:proxy\nx.com:\ny.com:maybe\n  #z.com:deny\nqq.com:proxy:extra\nlast.org:proxy";
    let rules = parse_rules(text.as_bytes());
    let got: Vec<(String, MatchType)> = rules
        .iter()
        .map(|r| (String::from_utf8(r.domain.clone()).unwrap(), r.match_type))
        .collect();
    assert_eq!(
        got,
        vec![
            ("baidu.com".to_string(), MatchType::Direct),
            ("ads.example.com".to_string(), MatchType::Deny),
            ("last.org".to_string(), MatchType::Proxy),
        ]
    );
}

#[test]
fn parse_rules_handles_crlf_and_trailing_newline() {
    let rules = parse_rules(b"a.com:direct\r\nb.com:\tdeny\t\r\n");
    assert_eq!(rules.len(), 2);
    assert_eq!(rules[0].domain, b"a.com".to_vec());
    assert_eq!(rules[0].match_type, MatchType::Direct);
    assert_eq!(rules[1].domain, b"b.com".to_vec());
    assert_eq!(rules[1].match_type, MatchType::Deny);
    assert!(parse_rules(b"").is_empty());
}

#[test]
fn longest_suffix_rule_wins() {
    let m = load("example.com:direct\nads.example.com:deny\n");
    assert_eq!(m.match_domain("example.com"), MatchType::Direct);
    assert_eq!(m.match_domain("www.example.com"), MatchType::Direct);
    assert_eq!(m.match_domain("ads.example.com"), MatchType::Deny);
    assert_eq!(m.match_domain("x.ads.example.com"), MatchType::Deny);
    assert_eq!(m.match_domain("google.com"), MatchType::Proxy);
    assert_eq!(m.match_domain(""), MatchType::Proxy);
    // Suffixes are matched byte by byte, not label by label.
    assert_eq!(m.match_domain("myexample.com"), MatchType::Direct);
}

#[test]
fn no_rules_gives_default() {
    let m = RouteMatcher::load(MatchType::Direct, None).ok().unwrap();
    assert_eq!(m.default_rule, MatchType::Direct);
    assert_eq!(m.match_domain("anything.net"), MatchType::Direct);
}

#[test]
fn conflicting_rules_are_reported() {
    let dup = RouteMatcher::load(MatchType::Proxy, Some(b"a.com:direct\nb.com:deny\na.com:proxy\n"));
    match dup {
        Err(e) => {
            assert_eq!(e.index, 2);
            assert_eq!(e.domain, b"a.com".to_vec());
        },
        Ok(_) => panic!("expected a conflict"),
    }
    // A rule whose domain is a suffix of an earlier rule's domain conflicts too.
    let suffix = RouteMatcher::load(MatchType::Proxy, Some(b"www.a.com:direct\na.com:deny\n"));
    assert!(matches!(suffix, Err(e) if e.index == 1));
    // The other order is accepted.
    let ok = load("a.com:deny\nwww.a.com:direct\n");
    assert_eq!(ok.match_domain("www.a.com"), MatchType::Direct);
    assert_eq!(ok.match_domain("mail.a.com"), MatchType::Deny);
}

#[test]
fn trie_insert_search() {
    let mut t = Trie::new();
    assert_eq!(t.search("a.com"), None);
    assert!(t.can_insert_bytes(b"a.com"));
    t.insert("a.com", MatchType::Deny);
    assert_eq!(t.search("a.com"), Some(MatchType::Deny));
    assert_eq!(t.search("b.a.com"), Some(MatchType::Deny));
    assert_eq!(t.search("com"), None);
    assert!(!t.can_insert_bytes(b"a.com"));
    assert!(!t.can_insert_bytes(b"com"));
    assert!(!t.can_insert_bytes(b""));
    assert!(t.can_insert_bytes(b"b.a.com"));
    t.insert("b.a.com", MatchType::Direct);
    assert_eq!(t.search("x.b.a.com"), Some(MatchType::Direct));
    assert_eq!(t.search("c.a.com"), Some(MatchType::Deny));
}

#[test]
fn rule_lines_written_with_as_str_read_back() {
    for m in [MatchType::Deny, MatchType::Direct, MatchType::Proxy] {
        let line = format!("x.com:{}", m.as_str());
        let rules = parse_rules(line.as_bytes());
        assert_eq!(rules.len(), 1);
        assert_eq!(rules[0].domain, b"x.com".to_vec());
        assert_eq!(rules[0].match_type, m);
    }
}

#[test]
fn rule_count() {
    assert_eq!(load("a.com:deny\n# c\nb.com:proxy\nbad line\n").get_count(), 2);
    assert_eq!(RouteMatcher::load(MatchType::Proxy, None).ok().unwrap().get_count(), 0);
}
