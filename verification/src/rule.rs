//! Filter rules: what to do with a query, and for which names.
use vstd::prelude::*;

verus! {

/// How the pattern of a rule is held against a name.
#[derive(Clone, Copy, Debug, PartialEq, Eq, Structural)]
pub enum RuleType {
    /// The name is the pattern.
    DomainExact,
    /// The name is the pattern or ends in a dot and the pattern.
    DomainSuffix,
    /// The pattern occurs in the name.
    DomainKeyword,
    /// The pattern is a regular expression that finds something in the name.
    Regex,
    /// A kind of rule that is not held against names.
    Other,
}

/// What becomes of a query that a rule matches.
#[derive(Clone, Debug, PartialEq, Eq)]
pub enum RuleAction {
    Block,
    Allow,
    Rewrite { target: String },
}

#[derive(Clone, Debug, PartialEq, Eq)]
pub struct Rule {
    pub action: RuleAction,
    pub rule_type: RuleType,
    pub pattern: String,
    /// Where the rule comes from.
    pub source: Option<String>,
}

#[verifier::ext_equal]
pub enum ActionView {
    Block,
    Allow,
    Rewrite(Seq<char>),
}

#[verifier::ext_equal]
pub struct RuleView {
    pub action: ActionView,
    pub rule_type: RuleType,
    pub pattern: Seq<char>,
    pub source: Option<Seq<char>>,
}

impl View for RuleAction {
    type V = ActionView;

    open spec fn view(&self) -> ActionView {
        match self {
            RuleAction::Block => ActionView::Block,
            RuleAction::Allow => ActionView::Allow,
            RuleAction::Rewrite { target } => ActionView::Rewrite(target@),
        }
    }
}

/// The text in `s`, where there is one.
pub open spec fn optional_text(s: Option<String>) -> Option<Seq<char>> {
    match s {
        Some(t) => Some(t@),
        None => None,
    }
}

impl View for Rule {
    type V = RuleView;

    open spec fn view(&self) -> RuleView {
        RuleView {
            action: self.action@,
            rule_type: self.rule_type,
            pattern: self.pattern@,
            source: optional_text(self.source),
        }
    }
}

/// What a run of rules says.
pub open spec fn rules_view(rules: Seq<Rule>) -> Seq<RuleView> {
    Seq::new(rules.len(), |i: int| rules[i]@)
}

/// The rule that does `action` for names that match `pattern` by `rule_type`.
pub open spec fn plain_rule(action: ActionView, rule_type: RuleType, pattern: Seq<char>) -> RuleView {
    RuleView { action, rule_type, pattern, source: None }
}

pub open spec fn exact_block(domain: Seq<char>) -> RuleView {
    plain_rule(ActionView::Block, RuleType::DomainExact, domain)
}

pub open spec fn suffix_block(domain: Seq<char>) -> RuleView {
    plain_rule(ActionView::Block, RuleType::DomainSuffix, domain)
}

pub open spec fn suffix_allow(domain: Seq<char>) -> RuleView {
    plain_rule(ActionView::Allow, RuleType::DomainSuffix, domain)
}

impl Rule {
    /// Blocks one name.
    pub fn block_exact(domain: &str) -> (r: Rule)
        ensures
            r@ == exact_block(domain@),
    {
        Rule {
            action: RuleAction::Block,
            rule_type: RuleType::DomainExact,
            pattern: domain.to_owned(),
            source: None,
        }
    }

    /// Blocks a name and all names below it.
    pub fn block_suffix(domain: &str) -> (r: Rule)
        ensures
            r@ == suffix_block(domain@),
    {
        Rule {
            action: RuleAction::Block,
            rule_type: RuleType::DomainSuffix,
            pattern: domain.to_owned(),
            source: None,
        }
    }

    /// Allows a name and all names below it.
    pub fn allow_suffix(domain: &str) -> (r: Rule)
        ensures
            r@ == suffix_allow(domain@),
    {
        Rule {
            action: RuleAction::Allow,
            rule_type: RuleType::DomainSuffix,
            pattern: domain.to_owned(),
            source: None,
        }
    }
}

} // verus!
