//! What holds of the rule engine as a whole.
use vstd::prelude::*;
use vstd::utf8::*;

use crate::engine;
use crate::engine::{LoadingView, VerdictView};
use crate::parser;
use crate::parser_laws;
use crate::rule;
use crate::rule::{ActionView, RuleType, RuleView};
use crate::text;

verus! {

// ── Texts of rules ──────────────────────────────────────────────────────────

proof fn lemma_custom_domain(rest: Seq<char>)
    ensures
        engine::custom_domain(engine::custom_domain(rest) + "^"@) == engine::custom_domain(rest),
{
    reveal_strlit("^");
    let d = engine::custom_domain(rest);
    let b = text::before(rest, '^');
    text::lemma_first_pos(rest, '^');
    text::lemma_skip_trailing(b, text::is_char('.'));
    assert forall|j: int| 0 <= j < d.len() implies (d + "^"@)[j] != '^' by {
        assert(b.subrange(0, d.len() as int)[j] == rest[j]);
    }
    text::lemma_first_pos_is(d + "^"@, '^', d.len() as int);
    assert(text::before(d + "^"@, '^') =~= d);
}

/// The text of a custom rule stands for that rule.
pub proof fn law_rule_text_read_back(s: Seq<char>)
    ensures
        engine::custom_rule(engine::rule_text(engine::custom_rule(s))) == engine::custom_rule(s),
{
    reveal_strlit("@@||");
    reveal_strlit("||");
    reveal_strlit("^");
    reveal_strlit("/");
    let t = text::trimmed(s);
    let r = engine::custom_rule(s);
    let u = engine::rule_text(r);
    text::lemma_trimmed(s);
    if "@@||"@.is_prefix_of(t) {
        let d = engine::custom_domain(t.skip(4));
        lemma_custom_domain(t.skip(4));
        assert(u == "@@||"@ + d + "^"@);
        text::lemma_trimmed_same(u);
        assert(u.subrange(0, 4) =~= "@@||"@);
        assert(u.skip(4) =~= d + "^"@);
    } else if "||"@.is_prefix_of(t) {
        let d = engine::custom_domain(t.skip(2));
        lemma_custom_domain(t.skip(2));
        assert(u == "||"@ + d + "^"@);
        text::lemma_trimmed_same(u);
        assert(u[0] == '|');
        assert(u.subrange(0, 2) =~= "||"@);
        assert(u.skip(2) =~= d + "^"@);
        assert(!"@@||"@.is_prefix_of(u)) by {
            if "@@||"@.is_prefix_of(u) {
                assert(u.subrange(0, 4)[0] == u[0]);
            }
        }
    } else if parser::slashed(t) {
        let p = parser::unslashed(t);
        assert(u == "/"@ + p + "/"@);
        assert(u =~= t);
        text::lemma_trimmed_same(t);
    } else {
        text::lemma_trimmed_same(t);
    }
}

proof fn lemma_barred_custom(d: Seq<char>, m: Seq<char>)
    requires
        parser::valid_domain(d),
    ensures
        engine::custom_domain(d + "^"@ + m) == d,
{
    reveal_strlit("^");
    let rest = d + "^"@ + m;
    assert forall|j: int| 0 <= j < d.len() implies rest[j] != '^' by {
        assert(parser::domain_char(d[j]));
    }
    text::lemma_first_pos_is(rest, '^', d.len() as int);
    assert(text::before(rest, '^') =~= d);
    parser_laws::lemma_domain_plain(d);
}

/// The texts of custom rules: `||name^` blocks and `@@||name^` allows the name and the
/// names below it, whatever follows; `/regex/` blocks what the regular expression finds;
/// a name alone is blocked.
pub proof fn law_custom_rule_forms(d: Seq<char>, m: Seq<char>, re: Seq<char>)
    requires
        parser::valid_domain(d),
        re.len() > 0,
    ensures
        engine::custom_rule("||"@ + d + "^"@ + m) == rule::suffix_block(d),
        engine::custom_rule("@@||"@ + d + "^"@ + m) == rule::suffix_allow(d),
        engine::custom_rule(d) == rule::exact_block(d),
        engine::custom_rule("/"@ + re + "/"@) == (RuleView {
            source: Some("custom"@),
            ..rule::plain_rule(ActionView::Block, RuleType::Regex, re)
        }),
{
    reveal_strlit("@@||");
    reveal_strlit("||");
    reveal_strlit("^");
    reveal_strlit("/");
    let m2 = text::skip_trailing(m, text::is_white());
    lemma_barred_custom(d, m2);
    parser_laws::lemma_domain_plain(d);
    assert(parser::domain_char(d[0]));

    let block = "||"@ + d + "^"@;
    parser_laws::lemma_trimmed_add(block, m);
    let line = block + m2;
    assert(line.subrange(0, 2) =~= "||"@);
    assert(line.skip(2) =~= d + "^"@ + m2);
    assert(line[0] == '|');
    if "@@||"@.is_prefix_of(line) {
        assert(line.subrange(0, 4)[0] == line[0]);
    }

    let allow = "@@||"@ + d + "^"@;
    parser_laws::lemma_trimmed_add(allow, m);
    let line = allow + m2;
    assert(line.subrange(0, 4) =~= "@@||"@);
    assert(line.skip(4) =~= d + "^"@ + m2);

    if "@@||"@.is_prefix_of(d) {
        assert(d.subrange(0, 4)[0] == d[0]);
    }
    if "||"@.is_prefix_of(d) {
        assert(d.subrange(0, 2)[0] == d[0]);
    }

    let p = "/"@ + re + "/"@;
    text::lemma_trimmed_same(p);
    assert(p[0] == '/');
    if "@@||"@.is_prefix_of(p) {
        assert(p.subrange(0, 4)[0] == p[0]);
    }
    if "||"@.is_prefix_of(p) {
        assert(p.subrange(0, 2)[0] == p[0]);
    }
    assert(parser::unslashed(p) =~= re);
}

// ── Adding and removing ─────────────────────────────────────────────────────

/// A rule that was added is there.
pub proof fn law_added_rule_held(rules: Seq<RuleView>, r: RuleView)
    ensures
        engine::holds(engine::with_rule(rules, r), r),
{
    if !engine::holds(rules, r) {
        assert(engine::alike(rules.push(r)[rules.len() as int], r));
    }
}

/// Adding a rule twice is adding it once.
pub proof fn law_add_twice(rules: Seq<RuleView>, r: RuleView)
    ensures
        engine::with_rule(engine::with_rule(rules, r), r) == engine::with_rule(rules, r),
{
    law_added_rule_held(rules, r);
}

/// After a removal no rule like the removed one is left, and every other rule is
/// still there.
pub proof fn law_removed_rule_gone(rules: Seq<RuleView>, r: RuleView)
    ensures
        !engine::holds(engine::without_rule(rules, r), r),
        forall|x: RuleView|
            !engine::alike(x, r) ==> (#[trigger] engine::holds(engine::without_rule(rules, r), x)
                <==> engine::holds(rules, x)),
{
    let keep = engine::unlike(r);
    let left = engine::without_rule(rules, r);
    if engine::holds(left, r) {
        let i = choose|i: int| 0 <= i < left.len() && engine::alike(#[trigger] left[i], r);
        rules.lemma_filter_pred(keep, i);
    }
    assert forall|x: RuleView| !engine::alike(x, r) implies (#[trigger] engine::holds(left, x)
        <==> engine::holds(rules, x)) by {
        if engine::holds(left, x) {
            let i = choose|i: int| 0 <= i < left.len() && engine::alike(#[trigger] left[i], x);
            assert(left.contains(left[i]));
            rules.lemma_filter_contains_rev(keep, left[i]);
            let k = choose|k: int| 0 <= k < rules.len() && rules[k] == left[i];
            assert(engine::alike(rules[k], x));
        }
        if engine::holds(rules, x) {
            let i = choose|i: int| 0 <= i < rules.len() && engine::alike(#[trigger] rules[i], x);
            assert(keep(rules[i]));
            rules.lemma_filter_contains(keep, i);
            let k = choose|k: int| 0 <= k < left.len() && left[k] == rules[i];
            assert(engine::alike(left[k], x));
        }
    }
}

/// Removing a rule that is not there changes nothing.
pub proof fn law_remove_absent(rules: Seq<RuleView>, r: RuleView)
    requires
        !engine::holds(rules, r),
    ensures
        engine::without_rule(rules, r) == rules,
    decreases rules.len(),
{
    reveal(Seq::filter);
    if rules.len() > 0 {
        let front = rules.drop_last();
        assert(!engine::alike(rules[rules.len() - 1], r));
        if engine::holds(front, r) {
            let i = choose|i: int| 0 <= i < front.len() && engine::alike(#[trigger] front[i], r);
            assert(engine::alike(rules[i], r));
        }
        law_remove_absent(front, r);
        assert(front.push(rules.last()) =~= rules);
    }
}

/// Removing a rule takes back that it was added: what is left is what was there
/// before, without rules like it.
pub proof fn law_add_then_remove(rules: Seq<RuleView>, r: RuleView)
    ensures
        engine::without_rule(engine::with_rule(rules, r), r) == engine::without_rule(rules, r),
        !engine::holds(rules, r) ==> engine::without_rule(engine::with_rule(rules, r), r) == rules,
{
    reveal(Seq::filter);
    if !engine::holds(rules, r) {
        law_remove_absent(rules, r);
        assert(rules.push(r).drop_last() =~= rules);
    }
}

/// Rules stay without duplicates, whatever is added and removed.
pub proof fn law_no_duplicates(rules: Seq<RuleView>, r: RuleView)
    requires
        engine::distinct(rules),
    ensures
        engine::distinct(engine::with_rule(rules, r)),
        engine::distinct(engine::without_rule(rules, r)),
{
    engine::lemma_with_rule_distinct(rules, r);
    engine::lemma_without_rule_distinct(rules, r);
}

// ── Matching ────────────────────────────────────────────────────────────────

/// The first custom rule that matches decides, and where none matches none does.
pub proof fn law_first_rule_decides(rules: Seq<RuleView>, domain: Seq<char>)
    ensures
        forall|i: int|
            0 <= i < rules.len() && #[trigger] engine::hits(rules[i], domain) && (forall|j: int|
                0 <= j < i ==> !#[trigger] engine::hits(rules[j], domain))
                ==> engine::custom_verdict(rules, domain) == Some(
                engine::verdict_of(rules[i].action),
            ),
        engine::custom_verdict(rules, domain) is None <==> (forall|j: int|
            0 <= j < rules.len() ==> !#[trigger] engine::hits(rules[j], domain)),
    decreases rules.len(),
{
    if rules.len() > 0 {
        let rest = rules.drop_first();
        law_first_rule_decides(rest, domain);
        assert(forall|j: int| 0 <= j < rest.len() ==> rest[j] == rules[j + 1]);
        if !engine::hits(rules[0], domain) {
            assert forall|i: int|
                0 <= i < rules.len() && #[trigger] engine::hits(rules[i], domain) && (forall|j: int|
                    0 <= j < i ==> !#[trigger] engine::hits(
                        rules[j],
                        domain,
                    )) implies engine::custom_verdict(rules, domain) == Some(
                engine::verdict_of(rules[i].action),
            ) by {
                assert(engine::hits(rest[i - 1], domain));
            }
            if engine::custom_verdict(rules, domain) is None {
                assert forall|j: int| 0 <= j < rules.len() implies !#[trigger] engine::hits(
                    rules[j],
                    domain,
                ) by {
                    if j > 0 {
                        assert(!engine::hits(rest[j - 1], domain));
                    }
                }
            }
            if forall|j: int| 0 <= j < rules.len() ==> !#[trigger] engine::hits(rules[j], domain) {
                assert forall|j: int| 0 <= j < rest.len() implies !#[trigger] engine::hits(
                    rest[j],
                    domain,
                ) by {
                    assert(!engine::hits(rules[j + 1], domain));
                }
            }
        }
    }
}

/// A rule that is added decides only for names that no rule before it decides for.
pub proof fn law_added_rule_comes_last(rules: Seq<RuleView>, r: RuleView, domain: Seq<char>)
    ensures
        engine::custom_verdict(engine::with_rule(rules, r), domain) == (
        match engine::custom_verdict(rules, domain) {
            Some(v) => Some(v),
            None => if engine::hits(r, domain) {
                Some(engine::verdict_of(r.action))
            } else {
                None
            },
        }),
{
    if engine::holds(rules, r) {
        let i = choose|i: int| 0 <= i < rules.len() && engine::alike(#[trigger] rules[i], r);
        law_first_rule_decides(rules, domain);
        assert(engine::hits(rules[i], domain) == engine::hits(r, domain));
    } else {
        lemma_verdict_push(rules, r, domain);
    }
}

proof fn lemma_verdict_push(rules: Seq<RuleView>, r: RuleView, domain: Seq<char>)
    ensures
        engine::custom_verdict(rules.push(r), domain) == (
        match engine::custom_verdict(rules, domain) {
            Some(v) => Some(v),
            None => if engine::hits(r, domain) {
                Some(engine::verdict_of(r.action))
            } else {
                None
            },
        }),
    decreases rules.len(),
{
    if rules.len() > 0 {
        assert(rules.push(r).drop_first() =~= rules.drop_first().push(r));
        lemma_verdict_push(rules.drop_first(), r, domain);
    } else {
        assert(rules.push(r).drop_first() =~= seq![]);
        reveal_with_fuel(engine::custom_verdict, 2);
    }
}

/// A suffix rule matches its name and the names below it, and no others.
pub proof fn law_suffix_rule(r: RuleView, domain: Seq<char>)
    requires
        r.rule_type == RuleType::DomainSuffix,
    ensures
        engine::hits(r, domain) <==> (domain == r.pattern || exists|sub: Seq<char>|
            domain == #[trigger] (sub + seq!['.']) + r.pattern),
{
    let below = seq!['.'] + r.pattern;
    if below.is_suffix_of(domain) {
        let k = domain.len() - below.len();
        let sub = domain.take(k);
        assert(domain.skip(k) =~= domain.subrange(k, domain.len() as int));
        assert(domain =~= sub + domain.skip(k));
        assert(sub + below =~= (sub + seq!['.']) + r.pattern);
        assert(domain =~= (sub + seq!['.']) + r.pattern);
    }
    if exists|sub: Seq<char>| domain == #[trigger] (sub + seq!['.']) + r.pattern {
        let sub = choose|sub: Seq<char>| domain == #[trigger] (sub + seq!['.']) + r.pattern;
        assert(domain.subrange(domain.len() - below.len(), domain.len() as int) =~= below);
    }
}

/// Once `||name^` was added, the name and the names below it are blocked, unless a custom
/// rule that was there before decides otherwise.
pub proof fn law_block_takes_effect(
    rules: Seq<RuleView>,
    d: Seq<char>,
    m: Seq<char>,
    sub: Seq<char>,
)
    requires
        parser::valid_domain(d),
    ensures
        ({
            let now = engine::with_rule(rules, engine::custom_rule("||"@ + d + "^"@ + m));
            let below = (sub + seq!['.']) + d;
            &&& engine::custom_verdict(rules, d) is None ==> engine::custom_verdict(now, d)
                == Some(VerdictView::Block)
            &&& engine::custom_verdict(rules, below) is None ==> engine::custom_verdict(now, below)
                == Some(VerdictView::Block)
        }),
{
    let r = rule::suffix_block(d);
    law_custom_rule_forms(d, m, seq!['x']);
    law_suffix_rule(r, d);
    law_suffix_rule(r, (sub + seq!['.']) + d);
    law_added_rule_comes_last(rules, r, d);
    law_added_rule_comes_last(rules, r, (sub + seq!['.']) + d);
}

/// Dots at the end of a name, and the case of its ASCII letters, change nothing
/// about what a query asks for.
pub proof fn law_name_as_queried(fqdn: Seq<char>)
    ensures
        engine::queried_name(fqdn.push('.')) == engine::queried_name(fqdn),
        is_ascii_chars(fqdn) ==> engine::queried_name(text::ascii_upper(fqdn))
            == engine::queried_name(fqdn),
{
    assert(fqdn.push('.').drop_last() =~= fqdn);
    if is_ascii_chars(fqdn) {
        lemma_upper_ascii(fqdn);
        lemma_trim_upper(fqdn);
        let d = text::trimmed_end_of(fqdn, '.');
        text::lemma_skip_trailing(fqdn, text::is_char('.'));
        assert forall|i: int| 0 <= i < d.len() implies d[i] == fqdn[i] by {
            assert(fqdn.subrange(0, d.len() as int)[i] == fqdn[i]);
        }
        assert(is_ascii_chars(d));
        lemma_upper_ascii(d);
        assert(text::ascii_lower(text::ascii_upper(d)) =~= text::ascii_lower(d));
    }
}

proof fn lemma_upper_ascii(s: Seq<char>)
    requires
        is_ascii_chars(s),
    ensures
        is_ascii_chars(text::ascii_upper(s)),
{
}

proof fn lemma_trim_upper(s: Seq<char>)
    requires
        is_ascii_chars(s),
    ensures
        text::trimmed_end_of(text::ascii_upper(s), '.') == text::ascii_upper(
            text::trimmed_end_of(s, '.'),
        ),
    decreases s.len(),
{
    if s.len() > 0 {
        let up = text::ascii_upper(s);
        assert(up.drop_last() =~= text::ascii_upper(s.drop_last()));
        if s.last() == '.' {
            lemma_trim_upper(s.drop_last());
        }
    }
}

// ── Loading ─────────────────────────────────────────────────────────────────

/// The first ruleset among `outcomes`.
pub open spec fn first_loaded<R>(outcomes: Seq<Option<R>>) -> Option<R>
    decreases outcomes.len(),
{
    if outcomes.len() == 0 {
        None
    } else if outcomes[0] is Some {
        outcomes[0]
    } else {
        first_loaded(outcomes.drop_first())
    }
}

/// The search after the rest of the files was read as far as it asks for them, where
/// reading the file at each position gives what `outcomes` holds there.
pub open spec fn carried_on<P, R>(
    l: LoadingView<P, R>,
    outcomes: Seq<Option<R>>,
) -> LoadingView<P, R>
    decreases l.paths.len() - l.tried,
{
    if l.wf() && !l.finished() {
        carried_on(l.recorded(outcomes[l.tried as int]), outcomes)
    } else {
        l
    }
}

/// A search ends, and finds the first file that can be loaded, and nothing where none
/// can.
pub proof fn law_first_loadable_file_wins<P, R>(paths: Seq<P>, outcomes: Seq<Option<R>>)
    requires
        outcomes.len() == paths.len(),
    ensures
        carried_on(LoadingView { paths, tried: 0, loaded: None }, outcomes).finished(),
        carried_on(LoadingView { paths, tried: 0, loaded: None }, outcomes).paths == paths,
        carried_on(LoadingView { paths, tried: 0, loaded: None }, outcomes).loaded == first_loaded(
            outcomes,
        ),
{
    assert(outcomes.skip(0) =~= outcomes);
    lemma_carried_on(LoadingView { paths, tried: 0, loaded: None }, outcomes);
}

proof fn lemma_carried_on<P, R>(l: LoadingView<P, R>, outcomes: Seq<Option<R>>)
    requires
        l.wf(),
        l.loaded is None,
        outcomes.len() == l.paths.len(),
    ensures
        carried_on(l, outcomes).finished(),
        carried_on(l, outcomes).paths == l.paths,
        carried_on(l, outcomes).loaded == first_loaded(outcomes.skip(l.tried as int)),
    decreases l.paths.len() - l.tried,
{
    if !l.finished() {
        let next = l.recorded(outcomes[l.tried as int]);
        assert(outcomes.skip(l.tried as int).drop_first() =~= outcomes.skip(1 + l.tried as int));
        if next.loaded is None {
            lemma_carried_on(next, outcomes);
        } else {
            reveal_with_fuel(carried_on, 2);
        }
    }
}

} // verus!
