//! What the values of the library stand for, field by field and in order.
use vstd::prelude::*;

use crate::api;
use crate::api::RulesetConfig;
use crate::dns_codec;
use crate::dns_codec::{DnsError, DnsMessage, Question, RData, ResourceRecord};
use crate::engine;
use crate::engine::{MatchResult, VerdictView};
use crate::parser;
use crate::query_log;
use crate::query_log::QueryLogEntry;
use crate::rule;
use crate::rule::{ActionView, Rule, RuleAction, RuleView};
use crate::wire::DataView;

verus! {

/// A rule says what its fields say.
pub proof fn law_rule_fields(r: Rule)
    ensures
        r@.rule_type == r.rule_type,
        r@.pattern == r.pattern@,
        r.source is None ==> r@.source is None,
        r.source matches Some(s) ==> r@.source == Some(s@),
        r.action is Block ==> r@.action == ActionView::Block,
        r.action is Allow ==> r@.action == ActionView::Allow,
        r.action matches RuleAction::Rewrite { target } ==> r@.action == ActionView::Rewrite(
            target@,
        ),
{
}

/// A verdict says what its variant says.
pub proof fn law_verdict_fields(m: MatchResult)
    ensures
        m is Block ==> m@ == VerdictView::Block,
        m is Allow ==> m@ == VerdictView::Allow,
        m is NoMatch ==> m@ == VerdictView::NoMatch,
        m matches MatchResult::Rewrite(t) ==> m@ == VerdictView::Rewrite(t@),
{
}

/// A message says what its fields say.
pub proof fn law_message_fields(m: DnsMessage, q: Question, r: ResourceRecord)
    ensures
        m@.id == m.id,
        m@.flags == m.flags,
        m@.questions == dns_codec::questions_view(m.questions@),
        m@.answers == dns_codec::records_view(m.answers@),
        m@.authorities == dns_codec::records_view(m.authorities@),
        m@.additionals == dns_codec::records_view(m.additionals@),
        q@.name == q.name@,
        q@.qtype == q.qtype,
        q@.qclass == q.qclass,
        r@.name == r.name@,
        r@.rtype == r.rtype,
        r@.rclass == r.rclass,
        r@.ttl == r.ttl,
        r.rdata matches RData::A(ip) ==> r@.rdata == DataView::A(ip@),
        r.rdata matches RData::Aaaa(ip) ==> r@.rdata == DataView::Aaaa(ip@),
        r.rdata matches RData::Cname(n) ==> r@.rdata == DataView::Cname(n@),
        r.rdata matches RData::Raw(b) ==> r@.rdata == DataView::Raw(b@),
{
}

/// An entry of the log says what its fields say.
pub proof fn law_entry_fields(e: QueryLogEntry)
    ensures
        e@.ts == e.ts,
        e@.client == e.client@,
        e@.domain == e.domain@,
        e@.qtype == e.qtype@,
        e@.action == e.action,
        e.upstream is None ==> e@.upstream is None,
        e.upstream matches Some(u) ==> e@.upstream == Some(u@),
        e@.latency_ms == e.latency_ms,
        e@.cached == e.cached,
{
}

/// A ruleset says what its fields say.
pub proof fn law_ruleset_fields<P>(s: RulesetConfig<P>)
    ensures
        s@.name == s.name@,
        s@.path == s.path,
        s@.enabled == s.enabled,
{
}

/// A run of values says what they say one by one, in their order.
pub proof fn law_runs<P>(
    rules: Seq<Rule>,
    questions: Seq<Question>,
    records: Seq<ResourceRecord>,
    entries: Seq<QueryLogEntry>,
    sets: Seq<RulesetConfig<P>>,
    texts: Seq<String>,
)
    ensures
        rule::rules_view(rules).len() == rules.len(),
        forall|i: int|
            0 <= i < rules.len() ==> #[trigger] rule::rules_view(rules)[i] == rules[i]@,
        dns_codec::questions_view(questions).len() == questions.len(),
        forall|i: int|
            0 <= i < questions.len() ==> #[trigger] dns_codec::questions_view(questions)[i]
                == questions[i]@,
        dns_codec::records_view(records).len() == records.len(),
        forall|i: int|
            0 <= i < records.len() ==> #[trigger] dns_codec::records_view(records)[i]
                == records[i]@,
        query_log::entries_view(entries).len() == entries.len(),
        forall|i: int|
            0 <= i < entries.len() ==> #[trigger] query_log::entries_view(entries)[i]
                == entries[i]@,
        api::rulesets_view(sets).len() == sets.len(),
        forall|i: int| 0 <= i < sets.len() ==> #[trigger] api::rulesets_view(sets)[i] == sets[i]@,
        parser::texts_view(texts).len() == texts.len(),
        forall|i: int|
            0 <= i < texts.len() ==> #[trigger] parser::texts_view(texts)[i] == texts[i]@,
{
}

/// An error says its text.
pub proof fn law_error_text(e: DnsError)
    ensures
        e@ == e.0@,
{
}

/// A rule is found, or a query is decided, where the specification says so and as it says,
/// and not otherwise.
pub proof fn law_outcomes(
    r: Option<Rule>,
    said: Option<RuleView>,
    m: Option<MatchResult>,
    told: Option<VerdictView>,
    f: &str,
)
    ensures
        parser::found(r, said) <==> (r is Some <==> said is Some) && (r is Some ==> r->0@
            == said->0),
        engine::decided(m, told) <==> (m is Some <==> told is Some) && (m is Some ==> m->0@
            == told->0),
        query_log::filter_text(None) is None,
        query_log::filter_text(Some(f)) == Some(f@),
{
}

} // verus!
