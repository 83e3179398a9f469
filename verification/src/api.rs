//! What the web interface shows and switches.
use vstd::prelude::*;

use crate::engine::{MatchResult, VerdictView};
use crate::text::same_text;

verus! {

broadcast use vstd::string::group_string_axioms;

// ── Verdicts as text ────────────────────────────────────────────────────────

/// The text of a verdict.
pub open spec fn verdict_text(v: VerdictView) -> Seq<char> {
    match v {
        VerdictView::Block => "block"@,
        VerdictView::Allow => "allow"@,
        VerdictView::Rewrite(target) => "rewrite:"@ + target,
        VerdictView::NoMatch => "pass"@,
    }
}

/// The text of what is to be done: `block`, `allow`, `rewrite:` and the target, or `pass`.
pub fn verdict_to_string(v: &MatchResult) -> (r: String)
    ensures
        r@ == verdict_text(v@),
{
    match v {
        MatchResult::Block => "block".to_owned(),
        MatchResult::Allow => "allow".to_owned(),
        MatchResult::Rewrite(target) => "rewrite:".to_owned().concat(target.as_str()),
        MatchResult::NoMatch => "pass".to_owned(),
    }
}

/// Different verdicts have different texts.
pub proof fn law_verdict_texts_differ(v: VerdictView, w: VerdictView)
    requires
        verdict_text(v) == verdict_text(w),
    ensures
        v == w,
{
    reveal_strlit("block");
    reveal_strlit("allow");
    reveal_strlit("rewrite:");
    reveal_strlit("pass");
    let a = verdict_text(v);
    let b = verdict_text(w);
    assert(a[0] == b[0]);
    match (v, w) {
        (VerdictView::Rewrite(s), VerdictView::Rewrite(t)) => {
            assert(a.skip(8) =~= s);
            assert(b.skip(8) =~= t);
        },
        _ => {},
    }
}

// ── Rulesets that are switched on and off ───────────────────────────────────

/// A ruleset by its name, the path `P` of its file, and whether it is in use.
pub struct RulesetConfig<P> {
    pub name: String,
    pub path: P,
    pub enabled: bool,
}

#[verifier::ext_equal]
pub struct RulesetView<P> {
    pub name: Seq<char>,
    pub path: P,
    pub enabled: bool,
}

impl<P> View for RulesetConfig<P> {
    type V = RulesetView<P>;

    open spec fn view(&self) -> RulesetView<P> {
        RulesetView { name: self.name@, path: self.path, enabled: self.enabled }
    }
}

/// What a run of rulesets says.
pub open spec fn rulesets_view<P>(sets: Seq<RulesetConfig<P>>) -> Seq<RulesetView<P>> {
    Seq::new(sets.len(), |i: int| sets[i]@)
}

/// `sets` with those of that name switched on or off.
pub open spec fn toggled<P>(
    sets: Seq<RulesetView<P>>,
    name: Seq<char>,
    enabled: bool,
) -> Seq<RulesetView<P>> {
    Seq::new(
        sets.len(),
        |i: int|
            if sets[i].name == name {
                RulesetView { enabled, ..sets[i] }
            } else {
                sets[i]
            },
    )
}

/// The paths of the rulesets that are in use, in order.
pub open spec fn enabled_paths_of<P>(sets: Seq<RulesetView<P>>) -> Seq<P>
    decreases sets.len(),
{
    if sets.len() == 0 {
        seq![]
    } else if sets.last().enabled {
        enabled_paths_of(sets.drop_last()).push(sets.last().path)
    } else {
        enabled_paths_of(sets.drop_last())
    }
}

/// The paths of the rulesets that are in use, in order.
pub fn enabled_paths<P: Clone>(sets: &Vec<RulesetConfig<P>>) -> (r: Vec<P>)
    ensures
        r@.len() == enabled_paths_of(rulesets_view(sets@)).len(),
        forall|i: int|
            0 <= i < r@.len() ==> cloned(
                enabled_paths_of(rulesets_view(sets@))[i],
                #[trigger] r@[i],
            ),
{
    let ghost views = rulesets_view(sets@);
    let mut out: Vec<P> = Vec::new();
    let mut i: usize = 0;
    while i < sets.len()
        invariant
            i <= sets@.len(),
            views == rulesets_view(sets@),
            out@.len() == enabled_paths_of(views.take(i as int)).len(),
            forall|j: int|
                0 <= j < out@.len() ==> cloned(
                    enabled_paths_of(views.take(i as int))[j],
                    #[trigger] out@[j],
                ),
        decreases sets.len() - i,
    {
        assert(views.take(i + 1).drop_last() =~= views.take(i as int));
        if sets[i].enabled {
            out.push(sets[i].path.clone());
        }
        i += 1;
    }
    assert(views.take(i as int) =~= views);
    out
}

/// Switches the rulesets of that name on or off, and gives the paths of those that
/// are then in use.
pub fn toggle_ruleset<P: Clone>(sets: &mut Vec<RulesetConfig<P>>, name: &str, enabled: bool) -> (r:
    Vec<P>)
    ensures
        rulesets_view(final(sets)@) == toggled(rulesets_view(old(sets)@), name@, enabled),
        r@.len() == enabled_paths_of(rulesets_view(final(sets)@)).len(),
        forall|i: int|
            0 <= i < r@.len() ==> cloned(
                enabled_paths_of(rulesets_view(final(sets)@))[i],
                #[trigger] r@[i],
            ),
{
    let ghost given = rulesets_view(sets@);
    let ghost wanted = toggled(given, name@, enabled);
    let mut i: usize = 0;
    while i < sets.len()
        invariant
            i <= sets@.len() == given.len(),
            wanted == toggled(given, name@, enabled),
            forall|j: int| 0 <= j < i ==> (#[trigger] sets@[j])@ == wanted[j],
            forall|j: int| i <= j < given.len() ==> (#[trigger] sets@[j])@ == given[j],
        decreases sets.len() - i,
    {
        if same_text(sets[i].name.as_str(), name) {
            sets[i].enabled = enabled;
        }
        i += 1;
    }
    assert(rulesets_view(sets@) =~= wanted);
    enabled_paths(sets)
}

/// Switching a ruleset leaves names, paths and the rulesets of other names as they
/// are, and doing it twice is doing it once.
pub proof fn law_toggle<P>(sets: Seq<RulesetView<P>>, name: Seq<char>, enabled: bool)
    ensures
        toggled(sets, name, enabled).len() == sets.len(),
        forall|i: int|
            0 <= i < sets.len() ==> {
                let now = #[trigger] toggled(sets, name, enabled)[i];
                &&& now.name == sets[i].name
                &&& now.path == sets[i].path
                &&& now.enabled == (if sets[i].name == name {
                    enabled
                } else {
                    sets[i].enabled
                })
            },
        toggled(toggled(sets, name, enabled), name, enabled) == toggled(sets, name, enabled),
{
    assert(toggled(toggled(sets, name, enabled), name, enabled) =~= toggled(sets, name, enabled));
}

/// A path is in use if and only if a ruleset with that path is switched on.
pub proof fn law_enabled_paths<P>(sets: Seq<RulesetView<P>>, path: P)
    ensures
        enabled_paths_of(sets).contains(path) <==> exists|i: int|
            0 <= i < sets.len() && (#[trigger] sets[i]).enabled && sets[i].path == path,
    decreases sets.len(),
{
    if sets.len() > 0 {
        let front = sets.drop_last();
        law_enabled_paths(front, path);
        let before = enabled_paths_of(front);
        let all = enabled_paths_of(sets);
        if all.contains(path) {
            let k = choose|k: int| 0 <= k < all.len() && all[k] == path;
            if k < before.len() {
                assert(before.contains(path)) by {
                    assert(before[k] == path);
                }
                let i = choose|i: int|
                    0 <= i < front.len() && (#[trigger] front[i]).enabled && front[i].path == path;
                assert(sets[i].enabled && sets[i].path == path);
            } else {
                assert(sets[sets.len() - 1].enabled);
            }
        }
        if exists|i: int|
            0 <= i < sets.len() && (#[trigger] sets[i]).enabled && sets[i].path == path {
            let i = choose|i: int|
                0 <= i < sets.len() && (#[trigger] sets[i]).enabled && sets[i].path == path;
            if i < front.len() {
                assert(front[i].enabled && front[i].path == path);
                let k = choose|k: int| 0 <= k < before.len() && before[k] == path;
                assert(all[k] == path);
            } else {
                assert(all[all.len() - 1] == path);
            }
        }
    }
}

/// What is shown of each outcome of a query.
pub proof fn law_shown(target: Seq<char>)
    ensures
        verdict_text(VerdictView::Block) == seq!['b', 'l', 'o', 'c', 'k'],
        verdict_text(VerdictView::Allow) == seq!['a', 'l', 'l', 'o', 'w'],
        verdict_text(VerdictView::NoMatch) == seq!['p', 'a', 's', 's'],
        verdict_text(VerdictView::Rewrite(target)) == seq![
            'r', 'e', 'w', 'r', 'i', 't', 'e', ':',
        ] + target,
{
    reveal_strlit("block");
    reveal_strlit("allow");
    reveal_strlit("pass");
    reveal_strlit("rewrite:");
    assert("block"@ =~= seq!['b', 'l', 'o', 'c', 'k']);
    assert("allow"@ =~= seq!['a', 'l', 'l', 'o', 'w']);
    assert("pass"@ =~= seq!['p', 'a', 's', 's']);
    assert("rewrite:"@ =~= seq!['r', 'e', 'w', 'r', 'i', 't', 'e', ':']);
}

/// The paths in use come in the order of the rulesets, one for each that is switched on.
pub proof fn law_paths_in_order<P>(sets: Seq<RulesetView<P>>, s: RulesetView<P>)
    ensures
        enabled_paths_of(Seq::<RulesetView<P>>::empty()).len() == 0,
        enabled_paths_of(sets + seq![s]) == (if s.enabled {
            enabled_paths_of(sets) + seq![s.path]
        } else {
            enabled_paths_of(sets)
        }),
{
    let all = sets + seq![s];
    assert(all.drop_last() =~= sets);
    assert(enabled_paths_of(sets).push(s.path) =~= enabled_paths_of(sets) + seq![s.path]);
}

} // verus!
