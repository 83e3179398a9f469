use dnsward::convert::{
    convert_input, detect_format, format_for_extension, mark_source, parse_rules, InputFormat,
};
use dnsward::parser::{
    is_valid_domain, parse_adguard, parse_domain_list, parse_mihomo, parse_mihomo_item,
    unknown_kind, unknown_kinds,
};
use dnsward::rule::{Rule, RuleAction, RuleType};

fn chars(s: &str) -> Vec<char> {
    s.chars().collect()
}

fn rule(action: RuleAction, rule_type: RuleType, pattern: &str) -> Rule {
    Rule {
        action,
        rule_type,
        pattern: pattern.to_string(),
        source: None,
    }
}

#[test]
fn test_adguard_block_suffix() {
    let rules = parse_adguard("||example.com^\n");
    assert_eq!(rules.len(), 1);
    assert_eq!(rules[0].pattern, "example.com");
    assert_eq!(rules[0].rule_type, RuleType::DomainSuffix);
}

#[test]
fn test_adguard_allow() {
    let rules = parse_adguard("@@||safe.com^\n");
    assert_eq!(rules.len(), 1);
    assert_eq!(rules[0].action, RuleAction::Allow);
}

#[test]
fn test_adguard_regex() {
    let rules = parse_adguard("/ads\\./\n");
    assert_eq!(rules.len(), 1);
    assert_eq!(rules[0].rule_type, RuleType::Regex);
}

#[test]
fn test_adguard_hosts() {
    let rules = parse_adguard("0.0.0.0 tracker.com\n");
    assert_eq!(rules.len(), 1);
    assert_eq!(rules[0].rule_type, RuleType::DomainExact);
}

#[test]
fn test_mihomo_suffix() {
    let rules = parse_mihomo("payload:\n  - +.example.com\n").unwrap();
    assert_eq!(rules.len(), 1);
    assert_eq!(rules[0].rule_type, RuleType::DomainSuffix);
}

#[test]
fn test_mihomo_typed() {
    let rules = parse_mihomo(
        "payload:\n  - DOMAIN-KEYWORD,ads\n  - DOMAIN,exact.com\n",
    )
    .unwrap();
    assert_eq!(rules.len(), 2);
    assert_eq!(rules[0].rule_type, RuleType::DomainKeyword);
    assert_eq!(rules[1].rule_type, RuleType::DomainExact);
}

#[test]
fn test_adguard_comment_skipped() {
    let rules = parse_adguard("! This is a comment\n# Also a comment\n||ads.com^\n");
    assert_eq!(rules.len(), 1);
}

#[test]
fn test_adguard_modifiers_stripped() {
    // $important and other modifiers should be ignored
    let rules = parse_adguard("||example.com^$important\n");
    assert_eq!(rules.len(), 1);
    assert_eq!(rules[0].pattern, "example.com");
}

#[test]
fn test_adguard_wildcard_prefix() {
    // ||*.example.com^ is a suffix rule for example.com
    let rules = parse_adguard("||*.example.com^\n");
    assert_eq!(rules.len(), 1);
    assert_eq!(rules[0].rule_type, RuleType::DomainSuffix);
    assert_eq!(rules[0].pattern, "example.com");
}

#[test]
fn test_adguard_hosts_zero() {
    let rules = parse_adguard("0.0.0.0 ads.tracker.com\n");
    assert_eq!(rules.len(), 1);
    assert_eq!(rules[0].rule_type, RuleType::DomainExact);
    assert_eq!(rules[0].action, RuleAction::Block);
}

#[test]
fn test_adguard_regex_allow() {
    let rules = parse_adguard("@@/safe\\.cdn\\./\n");
    assert_eq!(rules.len(), 1);
    assert_eq!(rules[0].rule_type, RuleType::Regex);
    assert_eq!(rules[0].action, RuleAction::Allow);
}

#[test]
fn test_mihomo_empty_payload() {
    let rules = parse_mihomo("payload:\n").unwrap();
    assert_eq!(rules.len(), 0);
}

#[test]
fn test_mihomo_quoted_entries() {
    let rules = parse_mihomo(
        "payload:\n  - \"DOMAIN,example.com\"\n  - '+.ads.io'\n"
    ).unwrap();
    assert_eq!(rules.len(), 2);
    assert_eq!(rules[0].rule_type, RuleType::DomainExact);
    assert_eq!(rules[1].rule_type, RuleType::DomainSuffix);
}

#[test]
fn test_mihomo_keyword() {
    let rules = parse_mihomo(
        "payload:\n  - DOMAIN-KEYWORD,doubleclick\n"
    ).unwrap();
    assert_eq!(rules[0].rule_type, RuleType::DomainKeyword);
    assert_eq!(rules[0].pattern, "doubleclick");
}

#[test]
fn test_mihomo_ip_cidr_skipped() {
    // IP-CIDR rules should be silently skipped (not supported yet)
    let rules = parse_mihomo(
        "payload:\n  - IP-CIDR,1.2.3.0/24\n  - DOMAIN,example.com\n"
    ).unwrap();
    assert_eq!(rules.len(), 1);
}

#[test]
fn test_domain_list_inline_comment() {
    let rules = parse_domain_list("ads.com # advertising\ntrack.net\n");
    assert_eq!(rules.len(), 2);
    assert_eq!(rules[0].pattern, "ads.com");
}

#[test]
fn test_domain_list_wildcard() {
    let rules = parse_domain_list("*.ads.com\ntrack.net\n");
    assert_eq!(rules[0].rule_type, RuleType::DomainSuffix);
    assert_eq!(rules[0].pattern, "ads.com");
    assert_eq!(rules[1].rule_type, RuleType::DomainExact);
}

#[test]
fn domain_names() {
    assert!(is_valid_domain(&chars("example.com")));
    assert!(is_valid_domain(&chars("localhost")));
    assert!(is_valid_domain(&chars(&"a".repeat(253))));
    assert!(!is_valid_domain(&chars(&"a".repeat(254))));
    assert!(!is_valid_domain(&chars("")));
    assert!(!is_valid_domain(&chars("-a.com")));
    assert!(!is_valid_domain(&chars("a.com-")));
    assert!(!is_valid_domain(&chars(".a.com")));
    assert!(!is_valid_domain(&chars("a.com.")));
    assert!(!is_valid_domain(&chars("a_b.com")));
    assert!(!is_valid_domain(&chars("b\u{fc}cher.de")));
}

#[test]
fn adguard_forms() {
    let text = "||Example.com^$third-party\n@@||*.Safe.com^\n/ads[0-9]+/\n@@/cdn/\n\
                127.0.0.1 Tracker.com # seen\n::1 localhost\nPlain.com$all\n||bad_name^\n//\n\
                :: six.com\n@@ok.com.\n";
    let want = vec![
        rule(RuleAction::Block, RuleType::DomainSuffix, "example.com"),
        rule(RuleAction::Allow, RuleType::DomainSuffix, "safe.com"),
        rule(RuleAction::Block, RuleType::Regex, "ads[0-9]+"),
        rule(RuleAction::Allow, RuleType::Regex, "cdn"),
        rule(RuleAction::Block, RuleType::DomainExact, "Tracker.com"),
        rule(RuleAction::Block, RuleType::DomainExact, "plain.com"),
        rule(RuleAction::Block, RuleType::DomainExact, "six.com"),
        rule(RuleAction::Allow, RuleType::DomainExact, "ok.com"),
    ];
    assert_eq!(parse_adguard(text), want);
}

#[test]
fn adguard_lists_add_up() {
    let a = "||a.com^\r\n! note\nb.com\r";
    let b = "/c/\n\n@@||d.com^";
    let mut both = parse_adguard(a);
    both.extend(parse_adguard(b));
    assert_eq!(parse_adguard(&format!("{}\n{}", a, b)), both);
    assert_eq!(both.len(), 4);
}

#[test]
fn domain_lists_add_up() {
    let a = "a.com\r\n# note\n*.b.com\r";
    let b = "c.com#x\n\n-d.com\n#";
    let mut both = parse_domain_list(a);
    both.extend(parse_domain_list(b));
    assert_eq!(parse_domain_list(&format!("{}\n{}", a, b)), both);
    assert_eq!(both.len(), 3);
}

#[test]
fn lines_are_trimmed_of_all_white_space() {
    let rules = parse_domain_list("\u{3000}a.com\u{a0}\r\n\t b.com \u{2029}\n");
    assert_eq!(rules.len(), 2);
    assert_eq!(rules[0].pattern, "a.com");
    assert_eq!(rules[1].pattern, "b.com");
}

#[test]
fn mihomo_payload_begins_and_ends() {
    let text = "name: x\n- before.com\npayload: # rules\n\n# note\n- a.com\nother:\n- after.com\n\
                payload:\n- b.com\n";
    let rules = parse_mihomo(text).unwrap();
    let names: Vec<&str> = rules.iter().map(|r| r.pattern.as_str()).collect();
    assert_eq!(names, vec!["a.com", "b.com"]);
}

fn patterns(content: &str) -> Vec<String> {
    parse_mihomo(content).unwrap().into_iter().map(|r| r.pattern).collect()
}

#[test]
fn indented_lines_leave_the_payload_open() {
    assert_eq!(
        patterns("payload:\n  - DOMAIN,a.com\n  note: x\n  - DOMAIN,b.com\n"),
        vec!["a.com", "b.com"]
    );
    assert_eq!(patterns("payload:\n- a.com\n\tnote: x\n- b.com\n"), vec!["a.com", "b.com"]);
    assert_eq!(patterns("payload:\n- a.com\nnote: x\n- b.com\n"), vec!["a.com"]);
    assert_eq!(patterns("payload:\n- a.com\n\u{a0}note: x\n- b.com\n"), vec!["a.com"]);
    assert_eq!(patterns("  note: x\n  - a.com\n"), Vec::<String>::new());
}

#[test]
fn unknown_mihomo_kinds_are_named() {
    let kind = |s: &str| unknown_kind(&chars(s));
    assert_eq!(kind(" geoip ,CN"), Some("GEOIP".to_string()));
    assert_eq!(kind("stra\u{df}e,x"), Some("STRASSE".to_string()));
    assert_eq!(kind(",x"), Some("".to_string()));
    for known in ["DOMAIN", "domain-suffix", "DOMAIN-KEYWORD", "DOMAIN-REGEX", "IP-CIDR", "IP-CIDR6"] {
        assert_eq!(kind(&format!("{},x", known)), None);
    }
    assert_eq!(kind("+.a,b"), None);
    assert_eq!(kind("a.com"), None);
    assert_eq!(
        unknown_kinds("- RULE-SET,x\npayload:\n- GEOIP,CN\n- IP-CIDR,1.0.0.0/8\n- 'Match,y'\nk:\n- Z,1\n"),
        vec!["GEOIP", "MATCH"]
    );
}

#[test]
fn mihomo_items() {
    let item = |s: &str| parse_mihomo_item(&chars(s));
    assert_eq!(
        item("domain-suffix , Ads.com "),
        Some(rule(RuleAction::Block, RuleType::DomainSuffix, "Ads.com"))
    );
    assert_eq!(
        item("DOMAIN-KEYWORD,AdS"),
        Some(rule(RuleAction::Block, RuleType::DomainKeyword, "ads"))
    );
    assert_eq!(
        item("DOMAIN-REGEX,^ad[s,]"),
        Some(rule(RuleAction::Block, RuleType::Regex, "^ad[s,]"))
    );
    assert_eq!(
        item("plain.com"),
        Some(rule(RuleAction::Block, RuleType::DomainExact, "plain.com"))
    );
    assert_eq!(item("DOMAIN,bad_name"), None);
    assert_eq!(item("+.-bad"), None);
    assert_eq!(item("GEOIP,CN"), None);
    assert_eq!(item("IP-CIDR6,2001:db8::/32"), None);
    assert_eq!(item("stra\u{df}e,x.com"), None);
    assert_eq!(item(""), None);
}

#[test]
fn formats_are_detected() {
    assert_eq!(detect_format("YAML", "||a.com^"), InputFormat::Mihomo);
    assert_eq!(detect_format("yml", ""), InputFormat::Mihomo);
    assert_eq!(format_for_extension("YAML", "a.com"), InputFormat::Domains);
    assert_eq!(detect_format("txt", "x\n||a.com^"), InputFormat::Adguard);
    assert_eq!(detect_format("", "@@a.com"), InputFormat::Adguard);
    assert_eq!(detect_format("txt", "payload:\n- a.com"), InputFormat::Mihomo);
    assert_eq!(detect_format("txt", "a.com"), InputFormat::Domains);
}

#[test]
fn rules_are_read_by_format() {
    let text = "payload:\n- ||a.com^\n*.b.com\n";
    assert_eq!(parse_rules(InputFormat::Adguard, text).unwrap().len(), 0);
    assert_eq!(parse_rules(InputFormat::Mihomo, "payload:\n- a.com").unwrap().len(), 1);
    assert_eq!(parse_rules(InputFormat::Domains, text).unwrap()[0].pattern, "b.com");
}

#[test]
fn rules_carry_the_name_of_their_file() {
    let rules = convert_input(None, "txt", "||a.com^\nb.com\n", "list.txt").unwrap();
    assert_eq!(rules.len(), 2);
    assert_eq!(rules[0].rule_type, RuleType::DomainSuffix);
    assert!(rules.iter().all(|r| r.source.as_deref() == Some("list.txt")));
    let forced =
        convert_input(Some(InputFormat::Domains), "txt", "||a.com^\nb.com\n", "list.txt").unwrap();
    assert_eq!(forced.len(), 1);
    assert_eq!(forced[0].pattern, "b.com");
    assert_eq!(mark_source(vec![], "x"), vec![]);
}
