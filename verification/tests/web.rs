use dnsward::api::{enabled_paths, toggle_ruleset, verdict_to_string, RulesetConfig};
use dnsward::engine::MatchResult;

fn sets() -> Vec<RulesetConfig<String>> {
    [("ads", "a.ars", true), ("spam", "s.ars", false), ("ads", "b.ars", false), ("x", "x.ars", true)]
        .iter()
        .map(|(name, path, enabled)| RulesetConfig {
            name: name.to_string(),
            path: path.to_string(),
            enabled: *enabled,
        })
        .collect()
}

#[test]
fn verdicts_are_shown() {
    assert_eq!(verdict_to_string(&MatchResult::Block), "block");
    assert_eq!(verdict_to_string(&MatchResult::Allow), "allow");
    assert_eq!(verdict_to_string(&MatchResult::NoMatch), "pass");
    assert_eq!(
        verdict_to_string(&MatchResult::Rewrite("1.2.3.4".to_string())),
        "rewrite:1.2.3.4"
    );
}

#[test]
fn rulesets_are_switched_by_name() {
    let mut all = sets();
    assert_eq!(enabled_paths(&all), vec!["a.ars", "x.ars"]);
    assert_eq!(toggle_ruleset(&mut all, "ads", true), vec!["a.ars", "b.ars", "x.ars"]);
    assert_eq!(toggle_ruleset(&mut all, "ads", true), vec!["a.ars", "b.ars", "x.ars"]);
    assert_eq!(toggle_ruleset(&mut all, "ads", false), vec!["x.ars"]);
    assert_eq!(toggle_ruleset(&mut all, "absent", true), vec!["x.ars"]);
    let names: Vec<&str> = all.iter().map(|s| s.name.as_str()).collect();
    assert_eq!(names, vec!["ads", "spam", "ads", "x"]);
}
