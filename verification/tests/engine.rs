use dnsward::engine::{
    check_custom, match_custom, parse_custom_rule, rule_hits_given, rule_to_string, Loading,
    Lookup, MatchResult, RuleEngine,
};
use dnsward::rule::{Rule, RuleAction, RuleType};

fn rule(action: RuleAction, rule_type: RuleType, pattern: &str) -> Rule {
    Rule {
        action,
        rule_type,
        pattern: pattern.to_string(),
        source: None,
    }
}

fn engine_with(rules: &[&str]) -> RuleEngine<String, u32> {
    let mut engine = RuleEngine::new();
    for r in rules {
        engine.add_custom_rule(r).unwrap();
    }
    engine
}

fn decided(engine: &RuleEngine<String, u32>, fqdn: &str) -> MatchResult {
    match engine.query(fqdn) {
        Lookup::Decided(r) => r,
        Lookup::AskRuleset(_) => panic!("the ruleset is asked"),
    }
}

/// Runs a search in which the files with an even name hold a ruleset.
fn run(mut loading: Loading<u32, String>) -> (Loading<u32, String>, Vec<u32>) {
    let mut read = vec![];
    while let Some(path) = loading.next_path() {
        let path = *path;
        read.push(path);
        let outcome = if path % 2 == 0 { Some(format!("set {}", path)) } else { None };
        loading.record(outcome);
    }
    (loading, read)
}

#[test]
fn custom_rules_are_read() {
    let r = parse_custom_rule("  ||Example.com.^$x ");
    assert_eq!(r, Rule::block_suffix("Example.com"));
    assert_eq!(parse_custom_rule("@@||safe.com^"), Rule::allow_suffix("safe.com"));
    assert_eq!(parse_custom_rule("plain.com"), Rule::block_exact("plain.com"));
    assert_eq!(parse_custom_rule("//"), Rule::block_exact("//"));
    let re = parse_custom_rule("/ad[s]/");
    assert_eq!(re.rule_type, RuleType::Regex);
    assert_eq!(re.pattern, "ad[s]");
    assert_eq!(re.source.as_deref(), Some("custom"));
}

#[test]
fn rules_are_written() {
    let text = |a: RuleAction, t: RuleType| rule_to_string(&rule(a, t, "p"));
    let rewrite = RuleAction::Rewrite { target: "t".to_string() };
    assert_eq!(text(RuleAction::Allow, RuleType::DomainSuffix), "@@||p^");
    assert_eq!(text(RuleAction::Allow, RuleType::DomainExact), "@@p");
    assert_eq!(text(RuleAction::Allow, RuleType::Regex), "p");
    assert_eq!(text(RuleAction::Block, RuleType::DomainSuffix), "||p^");
    assert_eq!(text(RuleAction::Block, RuleType::DomainKeyword), "||p^$keyword");
    assert_eq!(text(RuleAction::Block, RuleType::Regex), "/p/");
    assert_eq!(text(RuleAction::Block, RuleType::DomainExact), "p");
    assert_eq!(text(RuleAction::Block, RuleType::Other), "p");
    assert_eq!(text(rewrite, RuleType::DomainSuffix), "p");
}

#[test]
fn texts_of_custom_rules_stand_for_them() {
    for s in ["||a.com^x", " @@||b.com..^", "/re/", "c.com ", "", "||", "/", "@@c.com"] {
        let r = parse_custom_rule(s);
        assert_eq!(parse_custom_rule(&rule_to_string(&r)), r);
    }
}

#[test]
fn names_match_by_kind() {
    let hits = |t: RuleType, pattern: &str, name: &str| {
        let rules = vec![rule(RuleAction::Block, t, pattern)];
        match_custom(&rules, name) == Some(MatchResult::Block)
    };
    assert!(hits(RuleType::DomainExact, "a.com", "a.com"));
    assert!(!hits(RuleType::DomainExact, "a.com", "b.a.com"));
    assert!(hits(RuleType::DomainSuffix, "a.com", "a.com"));
    assert!(hits(RuleType::DomainSuffix, "a.com", "b.a.com"));
    assert!(!hits(RuleType::DomainSuffix, "a.com", "ba.com"));
    assert!(hits(RuleType::DomainKeyword, "ads", "my-ads.net"));
    assert!(!hits(RuleType::DomainKeyword, "ads", "my-ad.net"));
    assert!(hits(RuleType::Regex, "^ad[0-9]+\\.", "ad42.net"));
    assert!(!hits(RuleType::Regex, "^ad[0-9]+\\.", "bad42.net"));
    assert!(!hits(RuleType::Regex, "(", "("));
    assert!(!hits(RuleType::Other, "a.com", "a.com"));
}

#[test]
fn a_search_decides_for_regex_rules_only() {
    let name: Vec<char> = "a.com".chars().collect();
    let re = rule(RuleAction::Block, RuleType::Regex, "a.com");
    assert!(rule_hits_given(&re, &name, Some(true)));
    assert!(!rule_hits_given(&re, &name, Some(false)));
    assert!(!rule_hits_given(&re, &name, None));
    let exact = rule(RuleAction::Block, RuleType::DomainExact, "a.com");
    assert!(rule_hits_given(&exact, &name, None));
}

#[test]
fn the_first_matching_rule_decides() {
    let rules = vec![
        rule(RuleAction::Allow, RuleType::DomainExact, "ok.a.com"),
        rule(
            RuleAction::Rewrite { target: "1.2.3.4".to_string() },
            RuleType::DomainExact,
            "re.a.com",
        ),
        rule(RuleAction::Block, RuleType::DomainSuffix, "a.com"),
        rule(RuleAction::Allow, RuleType::DomainExact, "a.com"),
    ];
    assert_eq!(check_custom(&rules, "OK.a.com."), Some(MatchResult::Allow));
    assert_eq!(
        check_custom(&rules, "re.A.com"),
        Some(MatchResult::Rewrite("1.2.3.4".to_string()))
    );
    assert_eq!(check_custom(&rules, "a.com..."), Some(MatchResult::Block));
    assert_eq!(check_custom(&rules, "b.com"), None);
    assert_eq!(match_custom(&rules, "A.com"), None);
}

#[test]
fn names_beyond_ascii_are_matched_in_lower_case() {
    let rules = vec![rule(RuleAction::Block, RuleType::DomainExact, "b\u{fc}cher.de")];
    assert_eq!(check_custom(&rules, "B\u{dc}CHER.de"), Some(MatchResult::Block));
}

#[test]
fn custom_rules_are_kept_once() {
    let mut engine = engine_with(&["||a.com^", "||a.com^", "/x/", "a.com", "||a.com.^"]);
    assert_eq!(engine.get_custom_rules(), vec!["||a.com^", "/x/", "a.com"]);
    engine.add_rule(Rule {
        source: None,
        ..parse_custom_rule("/x/")
    });
    assert_eq!(engine.get_custom_rules().len(), 3);
}

#[test]
fn removing_takes_back_adding() {
    let mut engine = engine_with(&["||a.com^", "@@||b.com^", "c.com"]);
    engine.add_custom_rule("/new/").unwrap();
    engine.remove_custom_rule(" /new/ ").unwrap();
    assert_eq!(engine.get_custom_rules(), vec!["||a.com^", "@@||b.com^", "c.com"]);
    engine.remove_custom_rule("@@||b.com^").unwrap();
    engine.remove_custom_rule("absent.com").unwrap();
    assert_eq!(engine.get_custom_rules(), vec!["||a.com^", "c.com"]);
    for text in engine.get_custom_rules() {
        engine.remove_custom_rule(&text).unwrap();
    }
    assert!(engine.get_custom_rules().is_empty());
}

#[test]
fn rules_differ_by_action() {
    let mut engine: RuleEngine<String, u32> = RuleEngine::default();
    let to = |t: &str| RuleAction::Rewrite { target: t.to_string() };
    engine.add_rule(rule(to("1"), RuleType::DomainExact, "a"));
    engine.add_rule(rule(to("2"), RuleType::DomainExact, "a"));
    engine.add_rule(rule(to("1"), RuleType::DomainExact, "a"));
    assert_eq!(engine.get_custom_rules().len(), 2);
    engine.remove_rule(&rule(to("1"), RuleType::DomainExact, "a"));
    assert_eq!(decided(&engine, "a"), MatchResult::Rewrite("2".to_string()));
}

#[test]
fn custom_rules_come_before_the_ruleset() {
    let mut engine: RuleEngine<u32, String> = RuleEngine::new();
    assert!(matches!(engine.query("a.com"), Lookup::Decided(MatchResult::NoMatch)));
    assert!(engine.ruleset().is_none());
    let (loading, read) = run(Loading::new(vec![1, 3, 4, 6]));
    assert_eq!(read, vec![1, 3, 4]);
    engine.load_files(loading);
    assert_eq!(engine.ruleset().map(|r| r.as_str()), Some("set 4"));
    engine.add_custom_rule("@@||a.com^").unwrap();
    assert!(matches!(engine.query("x.a.com"), Lookup::Decided(MatchResult::Allow)));
    assert!(matches!(engine.query("b.com"), Lookup::AskRuleset(r) if r == "set 4"));
}

#[test]
fn reloading_goes_through_the_same_files() {
    let mut engine: RuleEngine<u32, String> = RuleEngine::new();
    engine.load_files(run(Loading::new(vec![5, 8])).0);
    let (again, read) = run(engine.reload());
    assert_eq!(read, vec![5, 8]);
    engine.load_files(again);
    assert_eq!(engine.ruleset().map(|r| r.as_str()), Some("set 8"));
    engine.load_files(run(Loading::new(vec![5, 7])).0);
    assert!(engine.ruleset().is_none());
    assert_eq!(run(engine.reload()).1, vec![5, 7]);
    engine.load_files(run(Loading::new(vec![])).0);
    assert!(matches!(engine.query("a"), Lookup::Decided(MatchResult::NoMatch)));
}
