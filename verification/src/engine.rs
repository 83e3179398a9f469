//! The rule engine: custom rules first, then the loaded ruleset.
//!
//! A ruleset is a value `R` that was read from a file at a path `P`; reading it
//! and looking names up in it is left to the caller, who asks the engine what to
//! do next.
use vstd::prelude::*;
use vstd::slice::slice_subrange;

use crate::parser;
use crate::rule;
use crate::rule::{ActionView, Rule, RuleAction, RuleType, RuleView};
use crate::text;
use crate::text::{
    contains, ends_with, same, same_text, strip_prefix, to_chars, to_text, trim, trim_end_of, up_to,
};

verus! {

broadcast use vstd::string::group_string_axioms;

// ── Verdicts ────────────────────────────────────────────────────────────────

/// What is to be done with a query.
#[derive(Clone, Debug, PartialEq, Eq)]
pub enum MatchResult {
    Block,
    Allow,
    Rewrite(String),
    NoMatch,
}

#[verifier::ext_equal]
pub enum VerdictView {
    Block,
    Allow,
    Rewrite(Seq<char>),
    NoMatch,
}

impl View for MatchResult {
    type V = VerdictView;

    open spec fn view(&self) -> VerdictView {
        match self {
            MatchResult::Block => VerdictView::Block,
            MatchResult::Allow => VerdictView::Allow,
            MatchResult::Rewrite(target) => VerdictView::Rewrite(target@),
            MatchResult::NoMatch => VerdictView::NoMatch,
        }
    }
}

/// The verdict of a rule that matches.
pub open spec fn verdict_of(action: ActionView) -> VerdictView {
    match action {
        ActionView::Block => VerdictView::Block,
        ActionView::Allow => VerdictView::Allow,
        ActionView::Rewrite(target) => VerdictView::Rewrite(target),
    }
}

// ── Matching custom rules ───────────────────────────────────────────────────

/// Whether a regular expression finds something in a text, and `None` where it is
/// not well formed: what `regex::Regex::new` and `is_match` say of them.
pub uninterp spec fn regex_search(pattern: Seq<char>, haystack: Seq<char>) -> Option<bool>;

/// `regex::Regex::new` on `pattern`, then `Regex::is_match` on `haystack`: `None`
/// where the pattern does not compile, else whether there is a match anywhere. For a
/// given build of that crate the answer depends on the two texts alone.
#[verifier::external_body]
fn search_regex(pattern: &str, haystack: &str) -> (r: Option<bool>)
    ensures
        r == regex_search(pattern@, haystack@),
{
    match regex::Regex::new(pattern) {
        Ok(re) => Some(re.is_match(haystack)),
        Err(_) => None,
    }
}

/// `rule` matches `domain`, where its pattern as a regular expression does as
/// `search` says.
pub open spec fn hits_given(rule: RuleView, domain: Seq<char>, search: Option<bool>) -> bool {
    match rule.rule_type {
        RuleType::DomainExact => domain == rule.pattern,
        RuleType::DomainSuffix => domain == rule.pattern || (seq!['.'] + rule.pattern).is_suffix_of(
            domain,
        ),
        RuleType::DomainKeyword => text::occurs(rule.pattern, domain),
        RuleType::Regex => search == Some(true),
        RuleType::Other => false,
    }
}

/// `rule` matches `domain`.
pub open spec fn hits(rule: RuleView, domain: Seq<char>) -> bool {
    hits_given(rule, domain, regex_search(rule.pattern, domain))
}

/// The verdict of the first of `rules` that matches `domain`.
pub open spec fn custom_verdict(rules: Seq<RuleView>, domain: Seq<char>) -> Option<VerdictView>
    decreases rules.len(),
{
    if rules.len() == 0 {
        None
    } else if hits(rules[0], domain) {
        Some(verdict_of(rules[0].action))
    } else {
        custom_verdict(rules.drop_first(), domain)
    }
}

/// The name that custom rules are held against: without dots at its end, in lower
/// case.
pub open spec fn queried_name(fqdn: Seq<char>) -> Seq<char> {
    text::lowercase(text::trimmed_end_of(fqdn, '.'))
}

/// `rule` matches `domain`, where its pattern as a regular expression does as
/// `search` says.
pub fn rule_hits_given(rule: &Rule, domain: &[char], search: Option<bool>) -> (r: bool)
    ensures
        r == hits_given(rule@, domain@, search),
{
    let pattern: Vec<char> = to_chars(rule.pattern.as_str());
    match rule.rule_type {
        RuleType::DomainExact => same(domain, pattern.as_slice()),
        RuleType::DomainSuffix => {
            let mut below: Vec<char> = Vec::new();
            below.push('.');
            let mut tail: Vec<char> = to_chars(rule.pattern.as_str());
            below.append(&mut tail);
            assert(below@ =~= seq!['.'] + rule.pattern@);
            same(domain, pattern.as_slice()) || ends_with(domain, below.as_slice())
        },
        RuleType::DomainKeyword => contains(domain, pattern.as_slice()),
        RuleType::Regex => match search {
            Some(found) => found,
            None => false,
        },
        RuleType::Other => false,
    }
}

fn rule_hits(rule: &Rule, domain: &str) -> (r: bool)
    ensures
        r == hits(rule@, domain@),
{
    let search: Option<bool> = match rule.rule_type {
        RuleType::Regex => search_regex(rule.pattern.as_str(), domain),
        _ => None,
    };
    rule_hits_given(rule, to_chars(domain).as_slice(), search)
}

fn verdict(action: &RuleAction) -> (r: MatchResult)
    ensures
        r@ == verdict_of(action@),
{
    match action {
        RuleAction::Block => MatchResult::Block,
        RuleAction::Allow => MatchResult::Allow,
        RuleAction::Rewrite { target } => MatchResult::Rewrite(target.clone()),
    }
}

/// The verdict that a function gives is what the specification says.
pub open spec fn decided(r: Option<MatchResult>, said: Option<VerdictView>) -> bool {
    match said {
        Some(v) => r matches Some(x) && x@ == v,
        None => r is None,
    }
}

/// The verdict of the first of `rules` that matches `domain`, a name in lower case.
pub fn match_custom(rules: &[Rule], domain: &str) -> (r: Option<MatchResult>)
    ensures
        decided(r, custom_verdict(rule::rules_view(rules@), domain@)),
{
    let ghost views = rule::rules_view(rules@);
    let mut i: usize = 0;
    assert(views.skip(0) =~= views);
    while i < rules.len()
        invariant
            i <= rules.len(),
            views == rule::rules_view(rules@),
            custom_verdict(views, domain@) == custom_verdict(views.skip(i as int), domain@),
        decreases rules.len() - i,
    {
        assert(views.skip(i as int).drop_first() =~= views.skip(i + 1));
        if rule_hits(&rules[i], domain) {
            return Some(verdict(&rules[i].action));
        }
        i += 1;
    }
    None
}

/// The verdict of the first of `rules` that matches the name `fqdn`, in whatever
/// case and with or without dots at its end.
pub fn check_custom(rules: &[Rule], fqdn: &str) -> (r: Option<MatchResult>)
    ensures
        decided(r, custom_verdict(rule::rules_view(rules@), queried_name(fqdn@))),
{
    let chars: Vec<char> = to_chars(fqdn);
    let domain: String = text::to_lower(trim_end_of(chars.as_slice(), '.'));
    match_custom(rules, domain.as_str())
}

// ── Custom rules as text ────────────────────────────────────────────────────

/// The name between bars and `^`, without dots at its end.
pub open spec fn custom_domain(rest: Seq<char>) -> Seq<char> {
    text::trimmed_end_of(text::before(rest, '^'), '.')
}

/// The rule that the text `s` stands for.
pub open spec fn custom_rule(s: Seq<char>) -> RuleView {
    let t = text::trimmed(s);
    if "@@||"@.is_prefix_of(t) {
        rule::suffix_allow(custom_domain(t.skip(4)))
    } else if "||"@.is_prefix_of(t) {
        rule::suffix_block(custom_domain(t.skip(2)))
    } else if parser::slashed(t) {
        RuleView {
            action: ActionView::Block,
            rule_type: RuleType::Regex,
            pattern: parser::unslashed(t),
            source: Some("custom"@),
        }
    } else {
        rule::exact_block(t)
    }
}

/// The text of a rule.
pub open spec fn rule_text(r: RuleView) -> Seq<char> {
    match (r.action, r.rule_type) {
        (ActionView::Allow, RuleType::DomainSuffix) => "@@||"@ + r.pattern + "^"@,
        (ActionView::Allow, RuleType::DomainExact) => "@@"@ + r.pattern,
        (ActionView::Block, RuleType::DomainSuffix) => "||"@ + r.pattern + "^"@,
        (ActionView::Block, RuleType::DomainKeyword) => "||"@ + r.pattern + "^$keyword"@,
        (ActionView::Block, RuleType::Regex) => "/"@ + r.pattern + "/"@,
        _ => r.pattern,
    }
}

/// Reads a rule in AdGuardHome's syntax: `||example.com^`, `@@||safe.com^`,
/// `/regex/` or `example.com`.
pub fn parse_custom_rule(s: &str) -> (r: Rule)
    ensures
        r@ == custom_rule(s@),
{
    proof {
        reveal_strlit("@@||");
        reveal_strlit("||");
    }
    let chars: Vec<char> = to_chars(s);
    let s: &[char] = trim(chars.as_slice());
    if let Some(rest) = strip_prefix(s, "@@||") {
        let domain: &[char] = trim_end_of(up_to(rest, '^'), '.');
        return Rule::allow_suffix(to_text(domain).as_str());
    }
    if let Some(rest) = strip_prefix(s, "||") {
        let domain: &[char] = trim_end_of(up_to(rest, '^'), '.');
        return Rule::block_suffix(to_text(domain).as_str());
    }
    let n: usize = s.len();
    if n > 2 && s[0] == '/' && s[n - 1] == '/' {
        return Rule {
            action: RuleAction::Block,
            rule_type: RuleType::Regex,
            pattern: to_text(slice_subrange(s, 1, n - 1)),
            source: Some("custom".to_owned()),
        };
    }
    Rule::block_exact(to_text(s).as_str())
}

fn around(before: &str, middle: &String, behind: &str) -> (r: String)
    ensures
        r@ == before@ + middle@ + behind@,
{
    before.to_owned().concat(middle.as_str()).concat(behind)
}

/// The text of a rule.
pub fn rule_to_string(r: &Rule) -> (s: String)
    ensures
        s@ == rule_text(r@),
{
    match (&r.action, r.rule_type) {
        (RuleAction::Allow, RuleType::DomainSuffix) => around("@@||", &r.pattern, "^"),
        (RuleAction::Allow, RuleType::DomainExact) => "@@".to_owned().concat(r.pattern.as_str()),
        (RuleAction::Block, RuleType::DomainSuffix) => around("||", &r.pattern, "^"),
        (RuleAction::Block, RuleType::DomainKeyword) => around("||", &r.pattern, "^$keyword"),
        (RuleAction::Block, RuleType::Regex) => around("/", &r.pattern, "/"),
        _ => r.pattern.clone(),
    }
}

// ── The set of custom rules ─────────────────────────────────────────────────

/// The two rules are the same but for where they come from.
pub open spec fn alike(a: RuleView, b: RuleView) -> bool {
    a.pattern == b.pattern && a.action == b.action && a.rule_type == b.rule_type
}

/// One of `rules` is like `r`.
pub open spec fn holds(rules: Seq<RuleView>, r: RuleView) -> bool {
    exists|i: int| 0 <= i < rules.len() && alike(#[trigger] rules[i], r)
}

/// No two of `rules` are alike.
pub open spec fn distinct(rules: Seq<RuleView>) -> bool {
    forall|i: int, j: int|
        0 <= i < j < rules.len() ==> !alike(#[trigger] rules[i], #[trigger] rules[j])
}

/// `rules` with `r` at the end, unless one like it is there already.
pub open spec fn with_rule(rules: Seq<RuleView>, r: RuleView) -> Seq<RuleView> {
    if holds(rules, r) {
        rules
    } else {
        rules.push(r)
    }
}

/// The test for rules that are not like `r`.
pub open spec fn unlike(r: RuleView) -> spec_fn(RuleView) -> bool {
    |x: RuleView| !alike(x, r)
}

/// `rules` without those that are like `r`.
pub open spec fn without_rule(rules: Seq<RuleView>, r: RuleView) -> Seq<RuleView> {
    rules.filter(unlike(r))
}

fn same_action(a: &RuleAction, b: &RuleAction) -> (r: bool)
    ensures
        r == (a@ == b@),
{
    match (a, b) {
        (RuleAction::Block, RuleAction::Block) => true,
        (RuleAction::Allow, RuleAction::Allow) => true,
        (RuleAction::Rewrite { target: s }, RuleAction::Rewrite { target: t }) => same_text(
            s.as_str(),
            t.as_str(),
        ),
        _ => false,
    }
}

fn is_alike(a: &Rule, b: &Rule) -> (r: bool)
    ensures
        r == alike(a@, b@),
{
    same_text(a.pattern.as_str(), b.pattern.as_str()) && same_action(&a.action, &b.action)
        && a.rule_type == b.rule_type
}

/// Adding a rule leaves no two alike.
pub proof fn lemma_with_rule_distinct(rules: Seq<RuleView>, r: RuleView)
    requires
        distinct(rules),
    ensures
        distinct(with_rule(rules, r)),
{
}

/// Taking rules away leaves no two alike, and what is left was there before.
pub proof fn lemma_without_rule_distinct(rules: Seq<RuleView>, r: RuleView)
    requires
        distinct(rules),
    ensures
        distinct(without_rule(rules, r)),
        forall|i: int|
            0 <= i < without_rule(rules, r).len() ==> rules.contains(
                #[trigger] without_rule(rules, r)[i],
            ),
    decreases rules.len(),
{
    reveal(Seq::filter);
    if rules.len() > 0 {
        let front = rules.drop_last();
        lemma_without_rule_distinct(front, r);
        let kept = without_rule(front, r);
        let all = without_rule(rules, r);
        assert forall|i: int| 0 <= i < all.len() implies rules.contains(#[trigger] all[i]) by {
            if i < kept.len() {
                assert(front.contains(kept[i]));
                let k = choose|k: int| 0 <= k < front.len() && front[k] == kept[i];
                assert(rules[k] == all[i]);
            } else {
                assert(rules[rules.len() - 1] == all[i]);
            }
        }
        assert forall|i: int, j: int| 0 <= i < j < all.len() implies !alike(
            #[trigger] all[i],
            #[trigger] all[j],
        ) by {
            if j < kept.len() {
                assert(!alike(kept[i], kept[j]));
            } else {
                assert(front.contains(kept[i]));
                let k = choose|k: int| 0 <= k < front.len() && front[k] == kept[i];
                assert(!alike(rules[k], rules[rules.len() - 1]));
            }
        }
    }
}

// ── Loading rulesets ────────────────────────────────────────────────────────

/// A search for the first file in a list that holds a ruleset. Whoever runs it
/// reads the file that `next_path` names and hands what came of it to `record`,
/// until there is nothing left to read.
pub struct Loading<P, R> {
    paths: Vec<P>,
    tried: usize,
    loaded: Option<R>,
}

pub struct LoadingView<P, R> {
    pub paths: Seq<P>,
    /// How many files were read.
    pub tried: nat,
    pub loaded: Option<R>,
}

impl<P, R> View for Loading<P, R> {
    type V = LoadingView<P, R>;

    closed spec fn view(&self) -> LoadingView<P, R> {
        LoadingView { paths: self.paths@, tried: self.tried as nat, loaded: self.loaded }
    }
}

impl<P, R> LoadingView<P, R> {
    /// No more files were read than there are.
    pub open spec fn wf(self) -> bool {
        self.tried <= self.paths.len()
    }

    /// There is nothing left to read: a ruleset was found, or every file was tried.
    pub open spec fn finished(self) -> bool {
        self.loaded is Some || self.tried >= self.paths.len()
    }

    /// The search after one more file was read.
    pub open spec fn recorded(self, outcome: Option<R>) -> LoadingView<P, R> {
        LoadingView { paths: self.paths, tried: self.tried + 1, loaded: outcome }
    }
}

impl<P, R> Loading<P, R> {
    /// A search through `paths`, in their order.
    pub fn new(paths: Vec<P>) -> (r: Self)
        ensures
            r@ == (LoadingView { paths: paths@, tried: 0, loaded: None::<R> }),
            r@.wf(),
    {
        Loading { paths, tried: 0, loaded: None }
    }

    /// The file to read next.
    pub fn next_path(&self) -> (r: Option<&P>)
        ensures
            r is None <==> self@.finished(),
            r matches Some(p) ==> *p == self@.paths[self@.tried as int],
    {
        if self.loaded.is_none() && self.tried < self.paths.len() {
            Some(&self.paths[self.tried])
        } else {
            None
        }
    }

    /// Takes note of what came of reading the file that `next_path` named: its
    /// ruleset, or nothing where it could not be loaded.
    pub fn record(&mut self, outcome: Option<R>)
        requires
            !old(self)@.finished(),
        ensures
            final(self)@ == old(self)@.recorded(outcome),
            final(self)@.wf(),
    {
        assert(self.tried < self.paths.len());
        self.tried = self.tried + 1;
        self.loaded = outcome;
    }
}

// ── The engine ──────────────────────────────────────────────────────────────

/// Custom rules, and the ruleset that was loaded last.
pub struct RuleEngine<P, R> {
    ruleset: Option<R>,
    paths: Vec<P>,
    custom_rules: Vec<Rule>,
}

#[verifier::ext_equal]
pub struct EngineView<P, R> {
    pub ruleset: Option<R>,
    /// The files that were last looked through for a ruleset.
    pub paths: Seq<P>,
    pub custom: Seq<RuleView>,
}

impl<P, R> View for RuleEngine<P, R> {
    type V = EngineView<P, R>;

    closed spec fn view(&self) -> EngineView<P, R> {
        EngineView {
            ruleset: self.ruleset,
            paths: self.paths@,
            custom: rule::rules_view(self.custom_rules@),
        }
    }
}

/// What the engine knows about a name.
pub enum Lookup<'a, R> {
    /// A custom rule decides, or nothing does.
    Decided(MatchResult),
    /// No custom rule matches: the ruleset decides.
    AskRuleset(&'a R),
}

impl<P, R> EngineView<P, R> {
    /// No two custom rules are alike.
    pub open spec fn wf(self) -> bool {
        distinct(self.custom)
    }

    /// The answer for the name `fqdn`: custom rules come first, then the ruleset, and
    /// without one nothing matches.
    pub open spec fn answers(self, fqdn: Seq<char>, r: Lookup<R>) -> bool {
        match custom_verdict(self.custom, queried_name(fqdn)) {
            Some(v) => r matches Lookup::Decided(m) && m@ == v,
            None => match self.ruleset {
                Some(ruleset) => r matches Lookup::AskRuleset(x) && *x == ruleset,
                None => r matches Lookup::Decided(m) && m@ == VerdictView::NoMatch,
            },
        }
    }
}

impl<P, R> RuleEngine<P, R> {
    /// An engine without rules.
    pub fn new() -> (r: Self)
        ensures
            r@ == (EngineView { ruleset: None::<R>, paths: Seq::<P>::empty(), custom: seq![] }),
            r@.wf(),
    {
        let r = RuleEngine { ruleset: None, paths: Vec::new(), custom_rules: Vec::new() };
        assert(rule::rules_view(r.custom_rules@) =~= seq![]);
        r
    }

    /// Takes over what a finished search found: its ruleset, or none where no file
    /// could be loaded, and the files that it looked through.
    pub fn load_files(&mut self, loading: Loading<P, R>)
        requires
            loading@.finished(),
        ensures
            final(self)@ == (EngineView {
                ruleset: loading@.loaded,
                paths: loading@.paths,
                custom: old(self)@.custom,
            }),
            old(self)@.wf() ==> final(self)@.wf(),
    {
        self.ruleset = loading.loaded;
        self.paths = loading.paths;
    }

    /// A search through the same files again.
    pub fn reload(&self) -> (r: Loading<P, R>) where P: Clone
        ensures
            r@.paths.len() == self@.paths.len(),
            forall|i: int|
                0 <= i < r@.paths.len() ==> cloned(self@.paths[i], #[trigger] r@.paths[i]),
            r@.tried == 0,
            r@.loaded is None,
            r@.wf(),
    {
        Loading::new(self.paths.clone())
    }

    /// What is known about the name `fqdn`.
    pub fn query(&self, fqdn: &str) -> (r: Lookup<R>)
        ensures
            self@.answers(fqdn@, r),
    {
        if let Some(r) = check_custom(self.custom_rules.as_slice(), fqdn) {
            return Lookup::Decided(r);
        }
        match &self.ruleset {
            Some(ruleset) => Lookup::AskRuleset(ruleset),
            None => Lookup::Decided(MatchResult::NoMatch),
        }
    }

    /// The loaded ruleset.
    pub fn ruleset(&self) -> (r: Option<&R>)
        ensures
            match self@.ruleset {
                Some(ruleset) => r matches Some(x) && *x == ruleset,
                None => r is None,
            },
    {
        self.ruleset.as_ref()
    }

    /// Adds a custom rule, unless one like it is there already.
    pub fn add_rule(&mut self, rule: Rule)
        ensures
            final(self)@ == (EngineView {
                custom: with_rule(old(self)@.custom, rule@),
                ..old(self)@
            }),
            old(self)@.wf() ==> final(self)@.wf(),
    {
        let ghost before = rule::rules_view(self.custom_rules@);
        let mut i: usize = 0;
        while i < self.custom_rules.len()
            invariant
                i <= self.custom_rules@.len(),
                self@ == old(self)@,
                before == rule::rules_view(self.custom_rules@),
                forall|j: int| 0 <= j < i ==> !alike(#[trigger] before[j], rule@),
            decreases self.custom_rules.len() - i,
        {
            if is_alike(&self.custom_rules[i], &rule) {
                assert(alike(before[i as int], rule@));
                return;
            }
            assert(!alike(before[i as int], rule@));
            i += 1;
        }
        proof {
            if distinct(before) {
                lemma_with_rule_distinct(before, rule@);
            }
            assert(rule::rules_view(self.custom_rules@.push(rule)) =~= before.push(rule@));
        }
        self.custom_rules.push(rule);
    }

    /// Takes away the custom rules that are like `rule`.
    pub fn remove_rule(&mut self, rule: &Rule)
        ensures
            final(self)@ == (EngineView {
                custom: without_rule(old(self)@.custom, rule@),
                ..old(self)@
            }),
            old(self)@.wf() ==> final(self)@.wf(),
    {
        let ghost given = rule::rules_view(self.custom_rules@);
        let ghost mut k: int = 0;
        let ghost keep = unlike(rule@);
        proof {
            if distinct(given) {
                lemma_without_rule_distinct(given, rule@);
            }
            reveal(Seq::filter);
            assert(given.take(0).filter(keep) + given.skip(0) =~= given);
        }
        let mut i: usize = 0;
        while i < self.custom_rules.len()
            invariant
                0 <= k <= given.len(),
                keep == unlike(rule@),
                self@.ruleset == old(self)@.ruleset,
                self@.paths == old(self)@.paths,
                i == given.take(k).filter(keep).len(),
                rule::rules_view(self.custom_rules@) == given.take(k).filter(keep) + given.skip(k),
            decreases given.len() - k,
        {
            let ghost now = rule::rules_view(self.custom_rules@);
            let ghost kept = given.take(k).filter(keep);
            proof {
                reveal(Seq::filter);
                assert(k < given.len());
                assert(given.take(k + 1).drop_last() =~= given.take(k));
                assert(now[i as int] == given[k]);
            }
            if is_alike(&self.custom_rules[i], rule) {
                proof {
                    let left = self.custom_rules@.remove(i as int);
                    assert(rule::rules_view(left) =~= now.remove(i as int));
                    assert(now.remove(i as int) =~= kept + given.skip(k + 1));
                }
                self.custom_rules.remove(i);
            } else {
                assert(now =~= kept.push(given[k]) + given.skip(k + 1));
                i += 1;
            }
            proof {
                k = k + 1;
            }
        }
        assert(k == given.len());
        assert(given.take(k) =~= given);
        assert(given.take(k).filter(keep) + given.skip(k) =~= given.filter(keep));
    }

    /// Adds the custom rule that `s` stands for, as in `||example.com^`,
    /// `@@||safe.com^` or `example.com`.
    pub fn add_custom_rule(&mut self, s: &str) -> (r: Result<(), String>)
        ensures
            r is Ok,
            final(self)@ == (EngineView {
                custom: with_rule(old(self)@.custom, custom_rule(s@)),
                ..old(self)@
            }),
            old(self)@.wf() ==> final(self)@.wf(),
    {
        self.add_rule(parse_custom_rule(s));
        Ok(())
    }

    /// Takes away the custom rules that are like the one that `s` stands for.
    pub fn remove_custom_rule(&mut self, s: &str) -> (r: Result<(), String>)
        ensures
            r is Ok,
            final(self)@ == (EngineView {
                custom: without_rule(old(self)@.custom, custom_rule(s@)),
                ..old(self)@
            }),
            old(self)@.wf() ==> final(self)@.wf(),
    {
        let rule: Rule = parse_custom_rule(s);
        self.remove_rule(&rule);
        Ok(())
    }

    /// The texts of the custom rules, in the order in which they were added.
    pub fn get_custom_rules(&self) -> (r: Vec<String>)
        ensures
            r@.len() == self@.custom.len(),
            forall|i: int| 0 <= i < r@.len() ==> (#[trigger] r@[i])@ == rule_text(self@.custom[i]),
    {
        let mut out: Vec<String> = Vec::new();
        let mut i: usize = 0;
        while i < self.custom_rules.len()
            invariant
                i <= self.custom_rules@.len(),
                out@.len() == i,
                forall|j: int| 0 <= j < i ==> (#[trigger] out@[j])@ == rule_text(self@.custom[j]),
            decreases self.custom_rules.len() - i,
        {
            out.push(rule_to_string(&self.custom_rules[i]));
            i += 1;
        }
        out
    }
}

impl<P, R> Default for RuleEngine<P, R> {
    fn default() -> (r: Self)
        ensures
            r@ == (EngineView { ruleset: None::<R>, paths: Seq::<P>::empty(), custom: seq![] }),
            r@.wf(),
    {
        Self::new()
    }
}

} // verus!
