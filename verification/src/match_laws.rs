//! What custom rules say and do, field by field and name by name.
use vstd::prelude::*;
use vstd::utf8::*;

use crate::engine;
use crate::engine::{EngineView, LoadingView, Lookup, VerdictView};
use crate::engine_laws;
use crate::list_laws;
use crate::parser;
use crate::rule::{ActionView, RuleType, RuleView};
use crate::text;
use crate::text_laws;

verus! {

// ── Which names a rule matches ──────────────────────────────────────────────

/// The name that rules are held against is the queried name without the dots at its end,
/// in lower case: nothing else is taken off or added.
pub proof fn law_queried_name(d: Seq<char>, dots: Seq<char>)
    requires
        text_laws::all_of(dots, '.'),
        d.len() > 0 ==> d[d.len() - 1] != '.',
    ensures
        engine::queried_name(d + dots) == text::lowercase(d),
        is_ascii_chars(d) ==> {
            &&& engine::queried_name(d + dots).len() == d.len()
            &&& forall|i: int|
                0 <= i < d.len() ==> #[trigger] engine::queried_name(d + dots)[i] as int == (if 65
                    <= d[i] as int <= 90 {
                    d[i] as int + 32
                } else {
                    d[i] as int
                })
        },
{
    text_laws::law_trimmed_end_of(d, dots, '.');
    if is_ascii_chars(d) {
        text_laws::law_ascii_case(d);
    }
}

/// ASCII characters without capital letters.
pub open spec fn small_name(d: Seq<char>) -> bool {
    is_ascii_chars(d) && forall|i: int|
        0 <= i < d.len() ==> !(65 <= #[trigger] d[i] as int && d[i] as int <= 90)
}

/// A name in small letters that does not end in a dot is held against the rules as it is.
pub proof fn law_small_name_as_it_is(d: Seq<char>)
    requires
        small_name(d),
        d.len() > 0 ==> d[d.len() - 1] != '.',
    ensures
        engine::queried_name(d) == d,
{
    law_queried_name(d, seq![]);
    assert(d + Seq::<char>::empty() =~= d);
    assert(engine::queried_name(d) =~= d) by {
        assert forall|i: int| 0 <= i < d.len() implies engine::queried_name(d)[i] == d[i] by {
            assert(!(65 <= d[i] as int && d[i] as int <= 90));
            assert(engine::queried_name(d + Seq::<char>::empty())[i] as int == d[i] as int);
        }
    }
}

/// An exact rule matches its pattern and nothing else, a keyword rule the names that hold
/// its pattern, a regular expression what it is found in; other kinds match nothing.
pub proof fn law_hits(r: RuleView, domain: Seq<char>)
    ensures
        r.rule_type == RuleType::DomainExact ==> (engine::hits(r, domain) <==> r.pattern
            == domain),
        r.rule_type == RuleType::DomainKeyword ==> (engine::hits(r, domain) <==> exists|
            a: Seq<char>,
            b: Seq<char>,
        |
            domain == #[trigger] (a + r.pattern + b)),
        r.rule_type == RuleType::Regex ==> (engine::hits(r, domain) <==> engine::regex_search(
            r.pattern,
            domain,
        ) == Some(true)),
        r.rule_type == RuleType::Other ==> !engine::hits(r, domain),
{
    if r.rule_type == RuleType::DomainKeyword {
        if engine::hits(r, domain) {
            let (a, b) = text_laws::law_occurs_parts(r.pattern, domain);
            assert(domain == a + r.pattern + b);
        }
        if exists|a: Seq<char>, b: Seq<char>| domain == #[trigger] (a + r.pattern + b) {
            let (a, b) = choose|a: Seq<char>, b: Seq<char>|
                domain == #[trigger] (a + r.pattern + b);
            text_laws::law_occurs(a, r.pattern, b);
        }
    }
}

/// What a search for a regular expression said counts for regular expressions only.
pub proof fn law_hits_given(r: RuleView, domain: Seq<char>, search: Option<bool>)
    ensures
        r.rule_type == RuleType::Regex ==> (engine::hits_given(r, domain, search) <==> search
            == Some(true)),
        r.rule_type != RuleType::Regex ==> engine::hits_given(r, domain, search) == engine::hits(
            r,
            domain,
        ),
{
}

/// A rule that matches does what its action says.
pub proof fn law_verdicts(target: Seq<char>)
    ensures
        engine::verdict_of(ActionView::Block) == VerdictView::Block,
        engine::verdict_of(ActionView::Allow) == VerdictView::Allow,
        engine::verdict_of(ActionView::Rewrite(target)) == VerdictView::Rewrite(target),
{
}

/// The answer to a query is that of the first custom rule that matches; where none does,
/// the loaded ruleset is asked; and without one nothing matches.
pub proof fn law_answers<P, R>(e: EngineView<P, R>, fqdn: Seq<char>, r: Lookup<R>, i: int)
    requires
        e.answers(fqdn, r),
        0 <= i <= e.custom.len(),
        forall|j: int|
            0 <= j < i ==> !#[trigger] engine::hits(e.custom[j], engine::queried_name(fqdn)),
        i < e.custom.len() ==> engine::hits(e.custom[i], engine::queried_name(fqdn)),
    ensures
        i < e.custom.len() ==> (r matches Lookup::Decided(m) && m@ == (match e.custom[i].action {
            ActionView::Block => VerdictView::Block,
            ActionView::Allow => VerdictView::Allow,
            ActionView::Rewrite(target) => VerdictView::Rewrite(target),
        })),
        i == e.custom.len() && e.ruleset is Some ==> (r matches Lookup::AskRuleset(x) && Some(*x)
            == e.ruleset),
        i == e.custom.len() && e.ruleset is None ==> (r matches Lookup::Decided(m) && m@
            == VerdictView::NoMatch),
{
    engine_laws::law_first_rule_decides(e.custom, engine::queried_name(fqdn));
}

/// Once a name was added, it is blocked in whatever case it is asked for and with dots
/// behind it, unless a custom rule that was there before decides otherwise.
pub proof fn law_name_takes_effect<P, R>(
    e: EngineView<P, R>,
    d: Seq<char>,
    asked: Seq<char>,
    dots: Seq<char>,
    now: EngineView<P, R>,
    r: Lookup<R>,
)
    requires
        parser::valid_domain(d),
        small_name(d),
        is_ascii_chars(asked),
        asked.len() == d.len(),
        forall|i: int|
            0 <= i < d.len() ==> #[trigger] asked[i] as int == d[i] as int || asked[i] as int
                == d[i] as int - 32 && 97 <= d[i] as int && d[i] as int <= 122,
        text_laws::all_of(dots, '.'),
        engine::custom_verdict(e.custom, d) is None,
        now.custom == engine::with_rule(e.custom, engine::custom_rule(d)),
        now.answers(asked + dots, r),
    ensures
        r matches Lookup::Decided(m) && m@ == VerdictView::Block,
{
    let n = engine::queried_name(asked + dots);
    list_laws::law_valid_domain(d);
    let last = d.len() - 1;
    assert(asked[last] != '.') by {
        assert(d[last] != '.');
        assert(list_laws::name_char(d[last]));
    }
    law_queried_name(asked, dots);
    assert(n =~= d) by {
        assert forall|i: int| 0 <= i < d.len() implies n[i] == d[i] by {
            assert(n[i] as int == (if 65 <= asked[i] as int <= 90 {
                asked[i] as int + 32
            } else {
                asked[i] as int
            }));
            assert(!(65 <= d[i] as int && d[i] as int <= 90));
        }
    }
    engine_laws::law_custom_rule_forms(d, seq![], seq!['x']);
    list_laws::law_rule_makers(d, ActionView::Block, RuleType::DomainExact);
    let x = engine::custom_rule(d);
    law_hits(x, d);
    engine_laws::law_added_rule_comes_last(e.custom, x, d);
}

// ── Texts of rules ──────────────────────────────────────────────────────────

/// White space around the text of a rule does not matter.
pub proof fn law_custom_padded(a: Seq<char>, s: Seq<char>, b: Seq<char>)
    requires
        text_laws::all_white(a),
        text_laws::all_white(b),
    ensures
        engine::custom_rule(a + s + b) == engine::custom_rule(s),
{
    text_laws::law_trimmed_padded(a, s, b);
}

/// Behind bars stands a name, up to `^` or the end, without the dots at its end: it and
/// what is below it is blocked, or with `@@` allowed. The name is kept as it stands.
pub proof fn law_custom_barred(x: Seq<char>, dots: Seq<char>, tail: Seq<char>)
    requires
        text_laws::all_of(dots, '.'),
        x.len() > 0 ==> x[x.len() - 1] != '.',
        !x.contains('^'),
        text_laws::none_or_from(tail, '^'),
        text_laws::bare(seq!['|', '|'] + (x + dots + tail)),
    ensures
        engine::custom_rule(seq!['|', '|'] + (x + dots + tail)) == list_laws::listed(
            ActionView::Block,
            RuleType::DomainSuffix,
            x,
        ),
        engine::custom_rule(seq!['@', '@', '|', '|'] + (x + dots + tail)) == list_laws::listed(
            ActionView::Allow,
            RuleType::DomainSuffix,
            x,
        ),
{
    reveal_strlit("||");
    reveal_strlit("@@||");
    let rest = x + dots + tail;
    let block = seq!['|', '|'] + rest;
    let allow = seq!['@', '@', '|', '|'] + rest;
    let part = x + dots;
    assert forall|j: int| 0 <= j < part.len() implies part[j] != '^' by {
        if j < x.len() {
            assert(x.contains(x[j]));
        } else {
            assert(part[j] == dots[j - x.len()]);
        }
    }
    text_laws::law_before(part, tail, '^');
    text_laws::law_trimmed_end_of(x, dots, '.');
    assert(engine::custom_domain(rest) == x);
    text::lemma_trimmed_same(block);
    assert(block.subrange(0, 2) =~= "||"@);
    assert(block.skip(2) =~= rest);
    assert(block[0] == '|');
    if "@@||"@.is_prefix_of(block) {
        assert(block.subrange(0, 4)[0] == block[0]);
    }
    assert(allow.last() == block.last());
    text::lemma_trimmed_same(allow);
    assert(allow.subrange(0, 4) =~= "@@||"@);
    assert(allow.skip(4) =~= rest);
}

/// Something between slashes is a regular expression that blocks, and is marked as custom.
pub proof fn law_custom_regex(re: Seq<char>)
    requires
        re.len() > 0,
    ensures
        engine::custom_rule(seq!['/'] + re + seq!['/']) == (RuleView {
            action: ActionView::Block,
            rule_type: RuleType::Regex,
            pattern: re,
            source: Some(seq!['c', 'u', 's', 't', 'o', 'm']),
        }),
{
    reveal_strlit("||");
    reveal_strlit("@@||");
    reveal_strlit("custom");
    assert("custom"@ =~= seq!['c', 'u', 's', 't', 'o', 'm']);
    let p = seq!['/'] + re + seq!['/'];
    text::lemma_trimmed_same(p);
    assert(p[0] == '/');
    if "@@||"@.is_prefix_of(p) {
        assert(p.subrange(0, 4)[0] == p[0]);
    }
    if "||"@.is_prefix_of(p) {
        assert(p.subrange(0, 2)[0] == p[0]);
    }
    assert(parser::unslashed(p) =~= re);
}

/// Any other text is a name that is blocked, as it stands.
pub proof fn law_custom_plain(t: Seq<char>)
    requires
        text_laws::bare(t),
        !(t.len() >= 2 && t[0] == '|' && t[1] == '|'),
        !(t.len() >= 4 && t[0] == '@' && t[1] == '@' && t[2] == '|' && t[3] == '|'),
        !(t.len() > 2 && t[0] == '/' && t[t.len() - 1] == '/'),
    ensures
        engine::custom_rule(t) == list_laws::listed(ActionView::Block, RuleType::DomainExact, t),
{
    reveal_strlit("||");
    reveal_strlit("@@||");
    text::lemma_trimmed_same(t);
    if "@@||"@.is_prefix_of(t) {
        assert(t.subrange(0, 4)[0] == t[0]);
        assert(t.subrange(0, 4)[1] == t[1]);
        assert(t.subrange(0, 4)[2] == t[2]);
        assert(t.subrange(0, 4)[3] == t[3]);
    }
    if "||"@.is_prefix_of(t) {
        assert(t.subrange(0, 2)[0] == t[0]);
        assert(t.subrange(0, 2)[1] == t[1]);
    }
}

/// The text of a rule, by its action and its kind. Where there is no form for it, it is
/// the pattern.
pub proof fn law_rule_text(r: RuleView)
    ensures
        engine::rule_text(r) == (if r.rule_type == RuleType::DomainSuffix && r.action
            == ActionView::Block {
            seq!['|', '|'] + r.pattern + seq!['^']
        } else if r.rule_type == RuleType::DomainSuffix && r.action == ActionView::Allow {
            seq!['@', '@', '|', '|'] + r.pattern + seq!['^']
        } else if r.rule_type == RuleType::DomainExact && r.action == ActionView::Allow {
            seq!['@', '@'] + r.pattern
        } else if r.rule_type == RuleType::DomainKeyword && r.action == ActionView::Block {
            seq!['|', '|'] + r.pattern + seq!['^', '$', 'k', 'e', 'y', 'w', 'o', 'r', 'd']
        } else if r.rule_type == RuleType::Regex && r.action == ActionView::Block {
            seq!['/'] + r.pattern + seq!['/']
        } else {
            r.pattern
        }),
{
    reveal_strlit("@@||");
    reveal_strlit("@@");
    reveal_strlit("||");
    reveal_strlit("^");
    reveal_strlit("^$keyword");
    reveal_strlit("/");
    assert("@@||"@ =~= seq!['@', '@', '|', '|']);
    assert("@@"@ =~= seq!['@', '@']);
    assert("||"@ =~= seq!['|', '|']);
    assert("^"@ =~= seq!['^']);
    assert("^$keyword"@ =~= seq!['^', '$', 'k', 'e', 'y', 'w', 'o', 'r', 'd']);
    assert("/"@ =~= seq!['/']);
}

// ── The list of custom rules ────────────────────────────────────────────────

/// The two rules have the same pattern, the same kind and the same action.
pub open spec fn same_fields(a: RuleView, b: RuleView) -> bool {
    &&& a.pattern == b.pattern
    &&& a.rule_type == b.rule_type
    &&& a.action == b.action
}

/// A rule that differs in pattern, kind or action from all that are there is put behind
/// them.
pub proof fn law_add_new(rules: Seq<RuleView>, r: RuleView)
    requires
        forall|i: int| 0 <= i < rules.len() ==> !same_fields(#[trigger] rules[i], r),
    ensures
        engine::with_rule(rules, r).len() == rules.len() + 1,
        engine::with_rule(rules, r)[rules.len() as int] == r,
        engine::with_rule(rules, r).take(rules.len() as int) == rules,
{
    if engine::holds(rules, r) {
        let i = choose|i: int| 0 <= i < rules.len() && engine::alike(#[trigger] rules[i], r);
        assert(same_fields(rules[i], r));
    }
    assert(rules.push(r).take(rules.len() as int) =~= rules);
}

/// A rule is not added where one with the same pattern, kind and action is there.
pub proof fn law_add_known(rules: Seq<RuleView>, r: RuleView, i: int)
    requires
        0 <= i < rules.len(),
        same_fields(rules[i], r),
    ensures
        engine::with_rule(rules, r) == rules,
{
    assert(engine::alike(rules[i], r));
}

/// Of the rules one by one, those with the same pattern, kind and action are removed, and
/// all others stay in their order.
pub proof fn law_remove(rules: Seq<RuleView>, x: RuleView, r: RuleView)
    ensures
        engine::without_rule(Seq::<RuleView>::empty(), r).len() == 0,
        engine::without_rule(rules + seq![x], r) == (if same_fields(x, r) {
            engine::without_rule(rules, r)
        } else {
            engine::without_rule(rules, r) + seq![x]
        }),
{
    reveal(Seq::filter);
    let all = rules + seq![x];
    let keep = engine::unlike(r);
    assert(all.drop_last() =~= rules);
    assert(all.last() == x);
    assert(keep(x) == !same_fields(x, r));
    assert(rules.filter(keep).push(x) =~= rules.filter(keep) + seq![x]);
}

/// A rule to block and one to allow the same names stand side by side, and removing one
/// leaves the other.
#[verifier::spinoff_prover]
#[verifier::rlimit(60)]
pub proof fn law_block_and_allow(rules: Seq<RuleView>, d: Seq<char>)
    requires
        parser::valid_domain(d),
        forall|i: int| 0 <= i < rules.len() ==> (#[trigger] rules[i]).pattern != d,
    ensures
        ({
            let block = engine::custom_rule(seq!['|', '|'] + d + seq!['^']);
            let allow = engine::custom_rule(seq!['@', '@', '|', '|'] + d + seq!['^']);
            let both = engine::with_rule(engine::with_rule(rules, block), allow);
            &&& both == rules + seq![block, allow]
            &&& engine::without_rule(both, block) == rules + seq![allow]
            &&& engine::without_rule(both, allow) == rules + seq![block]
        }),
{
    let block = engine::custom_rule(seq!['|', '|'] + d + seq!['^']);
    let allow = engine::custom_rule(seq!['@', '@', '|', '|'] + d + seq!['^']);
    list_laws::law_valid_domain(d);
    assert(!d.contains('^')) by {
        assert forall|i: int| 0 <= i < d.len() implies d[i] != '^' by {
            assert(list_laws::name_char(d[i]));
        }
    }
    let none = Seq::<char>::empty();
    assert(seq!['|', '|'] + d + seq!['^'] =~= seq!['|', '|'] + (d + none + seq!['^']));
    assert(seq!['@', '@', '|', '|'] + d + seq!['^'] =~= seq!['@', '@', '|', '|'] + (d + none
        + seq!['^']));
    law_custom_barred(d, none, seq!['^']);
    law_add_new(rules, block);
    let one = engine::with_rule(rules, block);
    assert(one =~= rules + seq![block]) by {
        assert forall|i: int| 0 <= i < rules.len() implies one[i] == rules[i] by {
            assert(one.take(rules.len() as int)[i] == rules[i]);
        }
    }
    law_add_new(one, allow);
    let both = engine::with_rule(one, allow);
    assert(both =~= one + seq![allow]) by {
        assert forall|i: int| 0 <= i < one.len() implies both[i] == one[i] by {
            assert(both.take(one.len() as int)[i] == one[i]);
        }
    }
    assert(both =~= rules + seq![block, allow]);
    lemma_kept_all(rules, block);
    lemma_kept_all(rules, allow);
    law_remove(rules, block, block);
    law_remove(rules, block, allow);
    law_remove(one, allow, block);
    law_remove(one, allow, allow);
}

#[verifier::spinoff_prover]
#[verifier::rlimit(60)]
proof fn lemma_kept_all(rules: Seq<RuleView>, r: RuleView)
    requires
        forall|i: int| 0 <= i < rules.len() ==> !same_fields(#[trigger] rules[i], r),
    ensures
        engine::without_rule(rules, r) == rules,
    decreases rules.len(),
{
    if rules.len() > 0 {
        let front = rules.drop_last();
        assert forall|i: int| 0 <= i < front.len() implies !same_fields(#[trigger] front[i], r) by {
            assert(front[i] == rules[i]);
        }
        lemma_kept_all(front, r);
        law_remove(front, rules.last(), r);
        assert(!same_fields(rules[rules.len() - 1], r));
        let all = front + seq![rules.last()];
        assert forall|i: int| 0 <= i < rules.len() implies all[i] == rules[i] by {
            if i < front.len() {
                assert(all[i] == front[i]);
            } else {
                assert(all[i] == rules.last());
            }
        }
        assert(all =~= rules);
    } else {
        let none = Seq::<RuleView>::empty();
        assert(rules =~= none);
        law_remove(none, r, r);
        assert(engine::without_rule(none, r) =~= none);
    }
}

/// Every rule that differs from the removed one in pattern, kind or action is left.
pub proof fn law_remove_leaves_others(rules: Seq<RuleView>, r: RuleView, i: int)
    requires
        0 <= i < rules.len(),
        !same_fields(rules[i], r),
    ensures
        engine::without_rule(rules, r).contains(rules[i]),
{
    let keep = engine::unlike(r);
    assert(keep(rules[i]));
    rules.lemma_filter_contains(keep, i);
}

/// Rules are without duplicates where no two have the same pattern, kind and action.
pub proof fn law_distinct(rules: Seq<RuleView>)
    ensures
        engine::distinct(rules) <==> forall|i: int, j: int|
            0 <= i < j < rules.len() ==> !same_fields(#[trigger] rules[i], #[trigger] rules[j]),
{
    if engine::distinct(rules) {
        assert forall|i: int, j: int| 0 <= i < j < rules.len() implies !same_fields(
            #[trigger] rules[i],
            #[trigger] rules[j],
        ) by {
            assert(!engine::alike(rules[i], rules[j]));
        }
    }
    if forall|i: int, j: int|
        0 <= i < j < rules.len() ==> !same_fields(#[trigger] rules[i], #[trigger] rules[j]) {
        assert forall|i: int, j: int| 0 <= i < j < rules.len() implies !engine::alike(
            #[trigger] rules[i],
            #[trigger] rules[j],
        ) by {
            assert(!same_fields(rules[i], rules[j]));
        }
    }
}

// ── Loading ─────────────────────────────────────────────────────────────────

/// A search is over once it found a ruleset or went through all files, and each file that
/// is read moves it on by one.
pub proof fn law_loading<P, R>(l: LoadingView<P, R>, outcome: Option<R>)
    ensures
        l.wf() <==> l.tried <= l.paths.len(),
        l.finished() <==> (l.loaded is Some || l.tried >= l.paths.len()),
        l.recorded(outcome).paths == l.paths,
        l.recorded(outcome).tried == l.tried + 1,
        l.recorded(outcome).loaded == outcome,
{
}

/// No file is read behind the first one that can be loaded.
pub proof fn law_reading_stops<P, R>(paths: Seq<P>, outcomes: Seq<Option<R>>, i: int)
    requires
        outcomes.len() == paths.len(),
        0 <= i < outcomes.len(),
        outcomes[i] is Some,
        forall|j: int| 0 <= j < i ==> (#[trigger] outcomes[j]) is None,
    ensures
        engine_laws::carried_on(LoadingView { paths, tried: 0, loaded: None }, outcomes) == (
        LoadingView { paths, tried: (i + 1) as nat, loaded: outcomes[i] }),
{
    lemma_reading_stops(paths, outcomes, i, 0);
}

proof fn lemma_reading_stops<P, R>(paths: Seq<P>, outcomes: Seq<Option<R>>, i: int, k: nat)
    requires
        outcomes.len() == paths.len(),
        0 <= k <= i < outcomes.len(),
        outcomes[i] is Some,
        forall|j: int| 0 <= j < i ==> (#[trigger] outcomes[j]) is None,
    ensures
        engine_laws::carried_on(LoadingView { paths, tried: k, loaded: None }, outcomes) == (
        LoadingView { paths, tried: (i + 1) as nat, loaded: outcomes[i] }),
    decreases i - k,
{
    reveal_with_fuel(engine_laws::carried_on, 2);
    let next = LoadingView { paths, tried: k, loaded: None::<R> }.recorded(outcomes[k as int]);
    if k < i {
        assert(outcomes[k as int] is None);
        assert(next == LoadingView { paths, tried: (k + 1) as nat, loaded: None::<R> });
        lemma_reading_stops(paths, outcomes, i, (k + 1) as nat);
    }
}

} // verus!
