//! Which rule each line of a list gives, and which lines give none.
//!
//! A line is put together from parts: the name or pattern that counts, what may stand
//! around it, and what may follow. Every line is of one of these forms.
use vstd::prelude::*;

use crate::parser;
use crate::parser_laws;
use crate::rule;
use crate::rule::{ActionView, RuleType, RuleView};
use crate::text;
use crate::text_laws;

verus! {

/// A rule that says this and comes from nowhere in particular.
pub open spec fn listed(action: ActionView, rule_type: RuleType, pattern: Seq<char>) -> RuleView {
    RuleView { action, rule_type, pattern, source: None }
}

/// What a rule is made to say, it says.
pub proof fn law_rule_makers(d: Seq<char>, action: ActionView, rule_type: RuleType)
    ensures
        rule::plain_rule(action, rule_type, d) == listed(action, rule_type, d),
        rule::exact_block(d) == listed(ActionView::Block, RuleType::DomainExact, d),
        rule::suffix_block(d) == listed(ActionView::Block, RuleType::DomainSuffix, d),
        rule::suffix_allow(d) == listed(ActionView::Allow, RuleType::DomainSuffix, d),
{
}

/// A letter, a digit, a hyphen or a dot, by its code.
pub open spec fn name_char(c: char) -> bool {
    let n = c as int;
    ||| 97 <= n <= 122
    ||| 65 <= n <= 90
    ||| 48 <= n <= 57
    ||| n == 45
    ||| n == 46
}

/// A domain name is 1 to 253 letters, digits, hyphens and dots, with neither a hyphen
/// nor a dot at either end.
pub proof fn law_valid_domain(s: Seq<char>)
    ensures
        parser::valid_domain(s) <==> {
            &&& s.len() > 0
            &&& s.len() < 254
            &&& forall|i: int| 0 <= i < s.len() ==> name_char(#[trigger] s[i])
            &&& text_laws::free_of(s, '-')
            &&& text_laws::free_of(s, '.')
        },
{
    assert(forall|c: char| name_char(c) == parser::domain_char(c));
    if parser::valid_domain(s) {
        assert forall|i: int| 0 <= i < s.len() implies name_char(#[trigger] s[i]) by {
            assert(parser::domain_char(s[i]));
        }
    }
    if s.len() > 0 && forall|i: int| 0 <= i < s.len() ==> name_char(#[trigger] s[i]) {
        assert forall|i: int| 0 <= i < s.len() implies parser::domain_char(#[trigger] s[i]) by {
            assert(name_char(s[i]));
        }
    }
}

// ── AdGuard lists, pattern by pattern ───────────────────────────────────────

/// Something between two slashes is a regular expression.
pub proof fn law_pattern_regex(re: Seq<char>, action: ActionView)
    requires
        re.len() > 0,
    ensures
        parser::adguard_pattern(seq!['/'] + re + seq!['/'], action) == Some(
            listed(action, RuleType::Regex, re),
        ),
{
    let p = seq!['/'] + re + seq!['/'];
    assert(parser::unslashed(p) =~= re);
}

/// Two bars, white space, copies of `*.`, `core`, white space, dots, and nothing or `^`
/// or `$` and more: a rule for `core` and the names below it comes of it if and only if
/// `core` is a domain name.
#[verifier::spinoff_prover]
#[verifier::rlimit(60)]
pub proof fn law_pattern_barred(
    w1: Seq<char>,
    k: nat,
    core: Seq<char>,
    w2: Seq<char>,
    dots: Seq<char>,
    tail: Seq<char>,
    action: ActionView,
)
    requires
        text_laws::all_white(w1),
        text_laws::all_white(w2),
        text_laws::all_of(dots, '.'),
        text_laws::bare(text_laws::copies(seq!['*', '.'], k) + core),
        !seq!['*', '.'].is_prefix_of(core),
        !core.contains('^'),
        !core.contains('$'),
        w1 + text_laws::copies(seq!['*', '.'], k) + core + w2 != Seq::<char>::empty() ==> (w1
            + text_laws::copies(seq!['*', '.'], k) + core + w2).last() != '.',
        tail.len() > 0 ==> tail[0] == '^' || tail[0] == '$',
    ensures
        parser::adguard_pattern(
            seq!['|', '|'] + (w1 + text_laws::copies(seq!['*', '.'], k) + core + w2 + dots + tail),
            action,
        ) == (if parser::valid_domain(core) {
            Some(listed(action, RuleType::DomainSuffix, text::lowercase(core)))
        } else {
            None
        }),
{
    reveal_strlit("||");
    reveal_strlit("*.");
    let star = seq!['*', '.'];
    assert("*."@ =~= star);
    assert("||"@ =~= seq!['|', '|']);
    let stars = text_laws::copies(star, k);
    let inner = w1 + stars + core + w2;
    let part = inner + dots;
    let rest = part + tail;
    let p = seq!['|', '|'] + rest;
    assert(p =~= seq!['|', '|'] + (w1 + stars + core + w2 + dots + tail));
    assert(p.subrange(0, 2) =~= "||"@);
    assert(p.skip(2) =~= rest);
    assert(p[0] == '|');
    lemma_copies_chars(star, k);
    assert forall|j: int| 0 <= j < part.len() implies part[j] != '^' && part[j] != '$' by {
        let c = part[j];
        let n1 = w1.len() as int;
        let n2 = n1 + stars.len();
        let n3 = n2 + core.len();
        let n4 = n3 + w2.len();
        if j < n1 {
            assert(c == w1[j]);
        } else if j < n2 {
            assert(c == stars[j - n1]);
        } else if j < n3 {
            assert(c == core[j - n2]);
            assert(core.contains(c));
        } else if j < n4 {
            assert(c == w2[j - n3]);
        } else {
            assert(c == dots[j - n4]);
        }
    }
    if tail.len() > 0 && tail[0] == '^' {
        text_laws::law_before(part, tail, '^');
        text_laws::law_before(part, seq![], '$');
        assert(part + Seq::<char>::empty() =~= part);
    } else {
        let cut = text_laws::law_before_parts(tail, '^');
        let kept = text::before(tail, '^');
        assert forall|j: int| 0 <= j < (part + kept).len() implies (part + kept)[j] != '^' by {
            if j >= part.len() {
                assert(kept.contains(kept[j - part.len()]));
            }
        }
        assert(rest =~= (part + kept) + cut);
        text_laws::law_before(part + kept, cut, '^');
        if kept.len() > 0 {
            assert(kept[0] == tail[0]);
        }
        text_laws::law_before(part, kept, '$');
    }
    assert(text::before(text::before(rest, '^'), '$') == part);
    if inner.len() > 0 {
        assert(inner[inner.len() - 1] == inner.last());
    }
    text_laws::law_trimmed_end_of(inner, dots, '.');
    assert(inner =~= w1 + (stars + core) + w2);
    text_laws::law_trimmed(w1, stars + core, w2);
    text_laws::law_without_leading(star, k, core);
    assert(parser::barred_domain(rest) == core);
}

proof fn lemma_copies_chars(star: Seq<char>, k: nat)
    requires
        star == seq!['*', '.'],
    ensures
        forall|i: int|
            0 <= i < text_laws::copies(star, k).len() ==> #[trigger] text_laws::copies(star, k)[i]
                == '*' || text_laws::copies(star, k)[i] == '.',
    decreases k,
{
    if k > 0 {
        lemma_copies_chars(star, (k - 1) as nat);
        let rest = text_laws::copies(star, (k - 1) as nat);
        let all = text_laws::copies(star, k);
        assert forall|i: int| 0 <= i < all.len() implies #[trigger] all[i] == '*' || all[i] == '.' by {
            if i >= 2 {
                assert(all[i] == rest[i - 2]);
            }
        }
    }
}

/// Every pattern behind two bars is made of these parts.
#[verifier::spinoff_prover]
#[verifier::rlimit(60)]
pub proof fn law_barred_parts(rest: Seq<char>) -> (r: (
    (Seq<char>, nat, Seq<char>),
    (Seq<char>, Seq<char>, Seq<char>),
))
    ensures
        ({
            let stars = text_laws::copies(seq!['*', '.'], r.0.1);
            let inner = r.0.0 + stars + r.0.2 + r.1.0;
            &&& rest == inner + r.1.1 + r.1.2
            &&& text_laws::all_white(r.0.0)
            &&& text_laws::all_white(r.1.0)
            &&& text_laws::all_of(r.1.1, '.')
            &&& text_laws::bare(stars + r.0.2)
            &&& !seq!['*', '.'].is_prefix_of(r.0.2)
            &&& !r.0.2.contains('^')
            &&& !r.0.2.contains('$')
            &&& inner != Seq::<char>::empty() ==> inner.last() != '.'
            &&& r.1.2.len() > 0 ==> r.1.2[0] == '^' || r.1.2[0] == '$'
        }),
{
    let star = seq!['*', '.'];
    let tail1 = text_laws::law_before_parts(rest, '^');
    let head = text::before(rest, '^');
    let tail2 = text_laws::law_before_parts(head, '$');
    let part = text::before(head, '$');
    let dots = text_laws::law_trimmed_end_parts(part, '.');
    let inner = text::trimmed_end_of(part, '.');
    let (w1, w2) = text_laws::law_trimmed_parts(inner);
    let t = text::trimmed(inner);
    let k = text_laws::law_without_leading_parts(t, star);
    let core = text::without_leading(t, star);
    let stars = text_laws::copies(star, k);
    let tail = tail2 + tail1;
    assert(inner =~= w1 + stars + core + w2) by {
        assert(t == stars + core);
        assert(w1 + (stars + core) + w2 =~= w1 + stars + core + w2);
    }
    assert(rest =~= inner + dots + tail) by {
        assert(rest == head + tail1);
        assert(head == part + tail2);
        assert(part == inner + dots);
        assert((part + tail2) + tail1 =~= part + tail);
    }
    assert forall|j: int| 0 <= j < core.len() implies core[j] != '^' && core[j] != '$' by {
        let i = w1.len() + stars.len() + j;
        assert(inner[i] == core[j]);
        assert(part[i] == inner[i]);
        assert(part.contains(part[i]));
        assert(head[i] == part[i]);
        assert(head.contains(head[i]));
    }
    if tail.len() > 0 {
        if tail2.len() > 0 {
            assert(tail[0] == tail2[0]);
        } else {
            assert(tail[0] == tail1[0]);
        }
    }
    ((w1, k, core), (w2, dots, tail))
}

/// A character that no domain name holds, and that is neither white space nor `*`, before
/// any `^` and `$`: no rule comes of a pattern behind two bars.
pub proof fn law_barred_other_character(rest: Seq<char>, i: int, action: ActionView)
    requires
        0 <= i < rest.len(),
        !name_char(rest[i]),
        rest[i] != '*',
        !text::white_space(rest[i]),
        forall|j: int| 0 <= j <= i ==> #[trigger] rest[j] != '$' && rest[j] != '^',
    ensures
        parser::adguard_pattern(seq!['|', '|'] + rest, action) is None,
{
    let star = seq!['*', '.'];
    let ((w1, k, core), (w2, dots, tail)) = law_barred_parts(rest);
    let stars = text_laws::copies(star, k);
    law_pattern_barred(w1, k, core, w2, dots, tail, action);
    lemma_copies_chars(star, k);
    law_valid_domain(core);
    let n1 = w1.len() as int;
    let n2 = n1 + stars.len();
    let n3 = n2 + core.len();
    let n4 = n3 + w2.len();
    let n5 = n4 + dots.len();
    if i < n1 {
        assert(rest[i] == w1[i]);
    } else if i < n2 {
        assert(rest[i] == stars[i - n1]);
    } else if i < n3 {
        assert(rest[i] == core[i - n2]);
    } else if i < n4 {
        assert(rest[i] == w2[i - n3]);
    } else if i < n5 {
        assert(rest[i] == dots[i - n4]);
    } else {
        assert(rest[n5] == tail[0]);
    }
}

/// The pattern is neither a regular expression between slashes nor behind two bars.
pub open spec fn plain_pattern(p: Seq<char>) -> bool {
    &&& !(p.len() > 2 && p[0] == '/' && p[p.len() - 1] == '/')
    &&& !(p.len() >= 2 && p[0] == '|' && p[1] == '|')
}

/// White space, `core`, dots, white space, and nothing or `$` and more: a rule for `core`
/// comes of it if and only if `core` is a domain name.
pub proof fn law_pattern_plain(
    w1: Seq<char>,
    core: Seq<char>,
    dots: Seq<char>,
    w2: Seq<char>,
    tail: Seq<char>,
    action: ActionView,
)
    requires
        text_laws::all_white(w1),
        text_laws::all_white(w2),
        text_laws::all_of(dots, '.'),
        text_laws::bare(core + dots),
        core.len() > 0 ==> core[core.len() - 1] != '.',
        !core.contains('$'),
        text_laws::none_or_from(tail, '$'),
        plain_pattern(w1 + core + dots + w2 + tail),
    ensures
        parser::adguard_pattern(w1 + core + dots + w2 + tail, action) == (
        if parser::valid_domain(core) {
            Some(listed(action, RuleType::DomainExact, text::lowercase(core)))
        } else {
            None
        }),
{
    reveal_strlit("||");
    let part = w1 + core + dots + w2;
    let p = part + tail;
    assert(!"||"@.is_prefix_of(p)) by {
        if "||"@.is_prefix_of(p) {
            assert(p.subrange(0, 2)[0] == p[0]);
            assert(p.subrange(0, 2)[1] == p[1]);
        }
    }
    assert forall|j: int| 0 <= j < part.len() implies part[j] != '$' by {
        let c = part[j];
        let n1 = w1.len() as int;
        let n2 = n1 + core.len();
        let n3 = n2 + dots.len();
        if j < n1 {
            assert(c == w1[j]);
        } else if j < n2 {
            assert(c == core[j - n1]);
            assert(core.contains(c));
        } else if j < n3 {
            assert(c == dots[j - n2]);
        } else {
            assert(c == w2[j - n3]);
        }
    }
    text_laws::law_before(part, tail, '$');
    assert(part =~= w1 + (core + dots) + w2);
    text_laws::law_trimmed(w1, core + dots, w2);
    text_laws::law_trimmed_end_of(core, dots, '.');
}

/// Every pattern without bars is made of these parts.
pub proof fn law_plain_parts(p: Seq<char>) -> (r: (
    Seq<char>,
    Seq<char>,
    Seq<char>,
    Seq<char>,
    Seq<char>,
))
    ensures
        p == r.0 + r.1 + r.2 + r.3 + r.4,
        text_laws::all_white(r.0),
        text_laws::all_white(r.3),
        text_laws::all_of(r.2, '.'),
        text_laws::bare(r.1 + r.2),
        r.1.len() > 0 ==> r.1[r.1.len() - 1] != '.',
        !r.1.contains('$'),
        text_laws::none_or_from(r.4, '$'),
{
    let tail = text_laws::law_before_parts(p, '$');
    let part = text::before(p, '$');
    let (w1, w2) = text_laws::law_trimmed_parts(part);
    let t = text::trimmed(part);
    let dots = text_laws::law_trimmed_end_parts(t, '.');
    let core = text::trimmed_end_of(t, '.');
    assert(core + dots == t);
    assert(p =~= w1 + core + dots + w2 + tail);
    assert forall|j: int| 0 <= j < core.len() implies core[j] != '$' by {
        assert(part[w1.len() + j] == core[j]);
        assert(part.contains(part[w1.len() + j]));
    }
    (w1, core, dots, w2, tail)
}

/// A character that no domain name holds, and that is no white space, before any `$`:
/// no rule comes of a pattern without bars.
pub proof fn law_plain_other_character(p: Seq<char>, k: int, action: ActionView)
    requires
        plain_pattern(p),
        0 <= k < p.len(),
        !name_char(p[k]),
        !text::white_space(p[k]),
        forall|j: int| 0 <= j <= k ==> #[trigger] p[j] != '$',
    ensures
        parser::adguard_pattern(p, action) is None,
{
    let (w1, core, dots, w2, tail) = law_plain_parts(p);
    law_pattern_plain(w1, core, dots, w2, tail, action);
    let n1 = w1.len() as int;
    let n2 = n1 + core.len();
    let n3 = n2 + dots.len();
    let n4 = n3 + w2.len();
    if k < n1 {
        assert(p[k] == w1[k]);
    } else if k < n2 {
        assert(p[k] == core[k - n1]);
        law_valid_domain(core);
    } else if k < n3 {
        assert(p[k] == dots[k - n2]);
    } else if k < n4 {
        assert(p[k] == w2[k - n3]);
    } else {
        assert(p[n4] == tail[0]);
    }
}

/// White space between other characters, before any `$`: no rule comes of a pattern
/// without bars.
pub proof fn law_plain_two_words(p: Seq<char>, a: int, k: int, b: int, action: ActionView)
    requires
        plain_pattern(p),
        0 <= a < k < b < p.len(),
        !text::white_space(p[a]),
        text::white_space(p[k]),
        !text::white_space(p[b]),
        forall|j: int| 0 <= j <= b ==> #[trigger] p[j] != '$',
    ensures
        parser::adguard_pattern(p, action) is None,
{
    let (w1, core, dots, w2, tail) = law_plain_parts(p);
    law_pattern_plain(w1, core, dots, w2, tail, action);
    let n1 = w1.len() as int;
    let n2 = n1 + core.len();
    let n3 = n2 + dots.len();
    let n4 = n3 + w2.len();
    if k < n1 {
        assert(p[a] == w1[a]);
    } else if k < n2 {
        assert(p[k] == core[k - n1]);
        law_valid_domain(core);
    } else if k < n3 {
        assert(p[k] == dots[k - n2]);
    } else if b < n4 {
        assert(p[b] == w2[b - n3]);
    } else {
        assert(p[n4] == tail[0]);
    }
}

// ── AdGuard lists, line by line ─────────────────────────────────────────────

/// White space around a line does not matter; a blank line and a comment give no rule,
/// and any other line the rule in it.
pub proof fn law_entry(a: Seq<char>, line: Seq<char>, b: Seq<char>)
    requires
        text_laws::all_white(a),
        text_laws::all_white(b),
        text_laws::bare(line),
    ensures
        parser::adguard_entry(a + line + b) == (if line.len() == 0 || line[0] == '!' || line[0]
            == '#' {
            None
        } else {
            parser::adguard_line(line)
        }),
{
    text_laws::law_trimmed(a, line, b);
}

/// Behind `@@` stands a pattern of what is allowed.
pub proof fn law_line_allow(p: Seq<char>)
    ensures
        parser::adguard_line(seq!['@', '@'] + p) == parser::adguard_pattern(p, ActionView::Allow),
{
    reveal_strlit("@@");
    let line = seq!['@', '@'] + p;
    assert(line.subrange(0, 2) =~= "@@"@);
    assert(line.skip(2) =~= p);
}

/// A line that neither begins with `@@` nor as a hosts file does is a pattern of what is
/// blocked.
pub proof fn law_line_block(line: Seq<char>)
    requires
        !(line.len() >= 2 && line[0] == '@' && line[1] == '@'),
        forall|a: Seq<char>|
            parser_laws::hosts_address(a) ==> !#[trigger] (a + seq![' ']).is_prefix_of(line),
    ensures
        parser::adguard_line(line) == parser::adguard_pattern(line, ActionView::Block),
{
    reveal_strlit("@@");
    reveal_strlit("127.0.0.1");
    reveal_strlit("0.0.0.0");
    reveal_strlit("::1");
    reveal_strlit("::");
    reveal_strlit("127.0.0.1 ");
    reveal_strlit("0.0.0.0 ");
    reveal_strlit("::1 ");
    reveal_strlit(":: ");
    assert("127.0.0.1"@ + seq![' '] =~= "127.0.0.1 "@);
    assert("0.0.0.0"@ + seq![' '] =~= "0.0.0.0 "@);
    assert("::1"@ + seq![' '] =~= "::1 "@);
    assert("::"@ + seq![' '] =~= ":: "@);
    assert(parser_laws::hosts_address("127.0.0.1"@));
    assert(parser_laws::hosts_address("0.0.0.0"@));
    assert(parser_laws::hosts_address("::1"@));
    assert(parser_laws::hosts_address("::"@));
    assert(!"@@"@.is_prefix_of(line)) by {
        if "@@"@.is_prefix_of(line) {
            assert(line.subrange(0, 2)[0] == line[0]);
            assert(line.subrange(0, 2)[1] == line[1]);
        }
    }
}

/// A line that is no comment, neither allows nor is one of a hosts file, and is plain,
/// gives no rule where a character that no domain name holds stands in it before any `$`.
pub proof fn law_line_other_character(line: Seq<char>, k: int)
    requires
        text_laws::bare(line),
        !(line.len() >= 2 && line[0] == '@' && line[1] == '@'),
        forall|a: Seq<char>|
            parser_laws::hosts_address(a) ==> !#[trigger] (a + seq![' ']).is_prefix_of(line),
        plain_pattern(line),
        0 <= k < line.len(),
        !name_char(line[k]),
        !text::white_space(line[k]),
        forall|j: int| 0 <= j <= k ==> #[trigger] line[j] != '$',
    ensures
        parser::adguard_entry(line) is None,
        !line.contains('\n') ==> parser::adguard_rules(line).len() == 0,
{
    law_plain_other_character(line, k, ActionView::Block);
    law_line_block(line);
    law_entry(seq![], line, seq![]);
    assert(Seq::<char>::empty() + line + Seq::<char>::empty() =~= line);
    if !line.contains('\n') {
        law_one_line(line);
    }
}

/// Behind an address of a hosts file, the first word is blocked as it stands, if and only
/// if it is a domain name other than `localhost`. What follows the word does not matter.
pub proof fn law_line_hosts(a: Seq<char>, ws: Seq<char>, w: Seq<char>, tail: Seq<char>)
    requires
        parser_laws::hosts_address(a),
        text_laws::all_white(ws),
        w.len() > 0,
        forall|i: int| 0 <= i < w.len() ==> !text::white_space(#[trigger] w[i]),
        tail.len() > 0 ==> text::white_space(tail[0]),
    ensures
        parser::adguard_line(a + seq![' '] + (ws + w + tail)) == (if parser::valid_domain(w) && w
            != seq!['l', 'o', 'c', 'a', 'l', 'h', 'o', 's', 't'] {
            Some(listed(ActionView::Block, RuleType::DomainExact, w))
        } else {
            None
        }),
{
    reveal_strlit("@@");
    reveal_strlit("localhost");
    reveal_strlit("127.0.0.1");
    reveal_strlit("0.0.0.0");
    reveal_strlit("::1");
    reveal_strlit("::");
    reveal_strlit("127.0.0.1 ");
    reveal_strlit("0.0.0.0 ");
    reveal_strlit("::1 ");
    reveal_strlit(":: ");
    let rest = ws + w + tail;
    let line = a + seq![' '] + rest;
    let k = a.len() as int;
    assert("localhost"@ =~= seq!['l', 'o', 'c', 'a', 'l', 'h', 'o', 's', 't']);
    assert(line[0] == a[0]);
    assert(!"@@"@.is_prefix_of(line)) by {
        if "@@"@.is_prefix_of(line) {
            assert(line.subrange(0, 2)[0] == line[0]);
        }
    }
    assert(a + seq![' '] =~= line.subrange(0, k + 1));
    if a == "127.0.0.1"@ {
        assert(a + seq![' '] =~= "127.0.0.1 "@);
    } else if a == "0.0.0.0"@ {
        assert(a + seq![' '] =~= "0.0.0.0 "@);
    } else if a == "::1"@ {
        assert(a + seq![' '] =~= "::1 "@);
    } else {
        assert(a + seq![' '] =~= ":: "@);
    }
    assert(parser::hosts_line(line));
    assert(!a.contains(' '));
    text_laws::law_before_and_behind(a, ' ', rest);
    text_laws::law_first_word(ws, w, tail);
}

/// Behind an address of a hosts file, white space alone gives no rule.
pub proof fn law_line_hosts_blank(a: Seq<char>, ws: Seq<char>)
    requires
        parser_laws::hosts_address(a),
        text_laws::all_white(ws),
    ensures
        parser::adguard_line(a + seq![' '] + ws) is None,
{
    reveal_strlit("@@");
    reveal_strlit("127.0.0.1");
    reveal_strlit("0.0.0.0");
    reveal_strlit("::1");
    reveal_strlit("::");
    reveal_strlit("127.0.0.1 ");
    reveal_strlit("0.0.0.0 ");
    reveal_strlit("::1 ");
    reveal_strlit(":: ");
    let line = a + seq![' '] + ws;
    let k = a.len() as int;
    assert(line[0] == a[0]);
    assert(!"@@"@.is_prefix_of(line)) by {
        if "@@"@.is_prefix_of(line) {
            assert(line.subrange(0, 2)[0] == line[0]);
        }
    }
    assert(a + seq![' '] =~= line.subrange(0, k + 1));
    if a == "127.0.0.1"@ {
        assert(a + seq![' '] =~= "127.0.0.1 "@);
    } else if a == "0.0.0.0"@ {
        assert(a + seq![' '] =~= "0.0.0.0 "@);
    } else if a == "::1"@ {
        assert(a + seq![' '] =~= "::1 "@);
    } else {
        assert(a + seq![' '] =~= ":: "@);
    }
    assert(parser::hosts_line(line));
    assert(!a.contains(' '));
    text_laws::law_before_and_behind(a, ' ', ws);
    text_laws::law_no_word(ws);
}

/// A line gives a rule that allows where it gives one that blocks, with `@@` before it.
pub proof fn law_allow_as_block(p: Seq<char>)
    ensures
        match (
            parser::adguard_pattern(p, ActionView::Block),
            parser::adguard_pattern(p, ActionView::Allow),
        ) {
            (Some(b), Some(a)) => a.pattern == b.pattern && a.rule_type == b.rule_type && a.action
                == ActionView::Allow && b.action == ActionView::Block,
            (None, None) => true,
            _ => false,
        },
{
}

/// A list of one line holds the rule of that line, or none.
pub proof fn law_one_line(line: Seq<char>)
    requires
        !line.contains('\n'),
    ensures
        parser::adguard_rules(line) == (match parser::adguard_entry(line) {
            Some(r) => seq![r],
            None => seq![],
        }),
        parser::domain_list_rules(line) == (match parser::domain_entry(line) {
            Some(r) => seq![r],
            None => seq![],
        }),
{
    reveal_with_fuel(parser::rules_in, 2);
    assert(text::trimmed(Seq::<char>::empty()) =~= seq![]);
    text_laws::law_lines(line, seq![]);
    if line.len() > 0 {
        let lines = text::lines_of(line);
        assert(lines.drop_first() =~= seq![]);
        assert(seq![lines[0]] =~= lines);
    } else {
        assert(line =~= seq![]);
        assert(text::lines_of(line) =~= seq![]);
    }
}

// ── Domain lists ────────────────────────────────────────────────────────────

/// White space, `core`, white space, and nothing or `#` and more: `core` is blocked if
/// it is a domain name, and with `*.` before it what is below it too; nothing else gives
/// a rule.
#[verifier::spinoff_prover]
#[verifier::rlimit(60)]
pub proof fn law_domain_entry(
    a: Seq<char>,
    core: Seq<char>,
    w: Seq<char>,
    tail: Seq<char>,
    below: Seq<char>,
)
    requires
        text_laws::all_white(a),
        text_laws::all_white(w),
        text_laws::bare(core),
        !core.contains('#'),
        text_laws::none_or_from(tail, '#'),
        below == core.skip(2),
    ensures
        parser::domain_entry(a + core + w + tail) == (if core.len() >= 2 && core[0] == '*'
            && core[1] == '.' {
            if parser::valid_domain(below) {
                Some(listed(ActionView::Block, RuleType::DomainSuffix, below))
            } else {
                None
            }
        } else if parser::valid_domain(core) {
            Some(listed(ActionView::Block, RuleType::DomainExact, core))
        } else {
            None
        }),
{
    reveal_strlit("*.");
    let (x, y) = text_laws::law_trimmed_parts(tail);
    let t = text::trimmed(tail);
    let line = text::trimmed(a + core + w + tail);
    if tail.len() > 0 {
        // `#` is no white space, so that nothing is taken off in front of it.
        if x.len() > 0 {
            assert(tail[0] == x[0]);
        }
        assert(x =~= seq![]);
        assert(tail =~= t + y);
        if t.len() == 0 {
            assert(tail[0] == y[0]);
        }
        assert(tail[0] == t[0]);
        let inner = core + w + t;
        if core.len() > 0 {
            assert(inner[0] == core[0]);
            assert(inner.last() == t.last());
            assert(text_laws::bare(inner));
            assert(a + core + w + tail =~= a + inner + y);
            text_laws::law_trimmed(a, inner, y);
            assert(line == inner);
            assert(line[0] != '#') by {
                assert(core.contains(core[0]));
            }
            assert forall|j: int| 0 <= j < (core + w).len() implies (core + w)[j] != '#' by {
                if j < core.len() {
                    assert(core.contains(core[j]));
                } else {
                    assert(text::white_space(w[j - core.len()]));
                }
            }
            text_laws::law_before(core + w, t, '#');
            assert(core + w =~= Seq::<char>::empty() + core + w);
            text_laws::law_trimmed(seq![], core, w);
        } else {
            assert(a + core + w + tail =~= (a + w) + t + y);
            assert(text_laws::all_white(a + w)) by {
                assert forall|i: int| 0 <= i < (a + w).len() implies text::white_space(
                    #[trigger] (a + w)[i],
                ) by {
                    if i < a.len() {
                        assert((a + w)[i] == a[i]);
                    } else {
                        assert((a + w)[i] == w[i - a.len()]);
                    }
                }
            }
            text_laws::law_trimmed(a + w, t, y);
        }
    } else {
        assert(a + core + w + tail =~= a + core + w);
        text_laws::law_trimmed(a, core, w);
        if core.len() > 0 {
            assert(core.contains(core[0]));
            text_laws::law_before(core, seq![], '#');
            assert(core + Seq::<char>::empty() =~= core);
            text_laws::law_trimmed(seq![], core, seq![]);
            assert(Seq::<char>::empty() + core + Seq::<char>::empty() =~= core);
        }
    }
    if core.len() > 0 {
        assert("*."@.is_prefix_of(core) <==> core.len() >= 2 && core[0] == '*' && core[1] == '.') by {
            if "*."@.is_prefix_of(core) {
                assert(core.subrange(0, 2)[0] == core[0]);
                assert(core.subrange(0, 2)[1] == core[1]);
            }
            if core.len() >= 2 && core[0] == '*' && core[1] == '.' {
                assert(core.subrange(0, 2) =~= "*."@);
            }
        }
    }
}

// ── Mihomo lists ────────────────────────────────────────────────────────────

/// What becomes of a kind, in capital letters, and a value.
pub proof fn law_typed(kind: Seq<char>, value: Seq<char>)
    ensures
        kind == seq!['D', 'O', 'M', 'A', 'I', 'N'] ==> parser::mihomo_typed(kind, value) == (
        if parser::valid_domain(value) {
            Some(listed(ActionView::Block, RuleType::DomainExact, value))
        } else {
            None
        }),
        kind == seq!['D', 'O', 'M', 'A', 'I', 'N', '-', 'S', 'U', 'F', 'F', 'I', 'X']
            ==> parser::mihomo_typed(kind, value) == (if parser::valid_domain(value) {
            Some(listed(ActionView::Block, RuleType::DomainSuffix, value))
        } else {
            None
        }),
        kind == seq!['D', 'O', 'M', 'A', 'I', 'N', '-', 'K', 'E', 'Y', 'W', 'O', 'R', 'D']
            ==> parser::mihomo_typed(kind, value) == Some(
            listed(ActionView::Block, RuleType::DomainKeyword, text::lowercase(value)),
        ),
        kind == seq!['D', 'O', 'M', 'A', 'I', 'N', '-', 'R', 'E', 'G', 'E', 'X']
            ==> parser::mihomo_typed(kind, value) == Some(
            listed(ActionView::Block, RuleType::Regex, value),
        ),
        kind != seq!['D', 'O', 'M', 'A', 'I', 'N'] && kind != seq![
            'D', 'O', 'M', 'A', 'I', 'N', '-', 'S', 'U', 'F', 'F', 'I', 'X',
        ] && kind != seq![
            'D', 'O', 'M', 'A', 'I', 'N', '-', 'K', 'E', 'Y', 'W', 'O', 'R', 'D',
        ] && kind != seq!['D', 'O', 'M', 'A', 'I', 'N', '-', 'R', 'E', 'G', 'E', 'X']
            ==> parser::mihomo_typed(kind, value) is None,
{
    lemma_kinds();
    assert("DOMAIN"@.len() == 6 && "DOMAIN-SUFFIX"@.len() == 13);
    assert("DOMAIN-KEYWORD"@.len() == 14 && "DOMAIN-REGEX"@.len() == 12);
}

proof fn lemma_kinds()
    ensures
        "DOMAIN"@ == seq!['D', 'O', 'M', 'A', 'I', 'N'],
        "DOMAIN-SUFFIX"@ == seq![
            'D', 'O', 'M', 'A', 'I', 'N', '-', 'S', 'U', 'F', 'F', 'I', 'X',
        ],
        "DOMAIN-KEYWORD"@ == seq![
            'D', 'O', 'M', 'A', 'I', 'N', '-', 'K', 'E', 'Y', 'W', 'O', 'R', 'D',
        ],
        "DOMAIN-REGEX"@ == seq!['D', 'O', 'M', 'A', 'I', 'N', '-', 'R', 'E', 'G', 'E', 'X'],
        "IP-CIDR"@ == seq!['I', 'P', '-', 'C', 'I', 'D', 'R'],
        "IP-CIDR6"@ == seq!['I', 'P', '-', 'C', 'I', 'D', 'R', '6'],
{
    reveal_strlit("DOMAIN");
    reveal_strlit("DOMAIN-SUFFIX");
    reveal_strlit("DOMAIN-KEYWORD");
    reveal_strlit("DOMAIN-REGEX");
    reveal_strlit("IP-CIDR");
    reveal_strlit("IP-CIDR6");
    assert("DOMAIN"@ =~= seq!['D', 'O', 'M', 'A', 'I', 'N']);
    assert("DOMAIN-SUFFIX"@ =~= seq![
        'D', 'O', 'M', 'A', 'I', 'N', '-', 'S', 'U', 'F', 'F', 'I', 'X',
    ]);
    assert("DOMAIN-KEYWORD"@ =~= seq![
        'D', 'O', 'M', 'A', 'I', 'N', '-', 'K', 'E', 'Y', 'W', 'O', 'R', 'D',
    ]);
    assert("DOMAIN-REGEX"@ =~= seq!['D', 'O', 'M', 'A', 'I', 'N', '-', 'R', 'E', 'G', 'E', 'X']);
    assert("IP-CIDR"@ =~= seq!['I', 'P', '-', 'C', 'I', 'D', 'R']);
    assert("IP-CIDR6"@ =~= seq!['I', 'P', '-', 'C', 'I', 'D', 'R', '6']);
}

/// An item behind `+.` blocks a name and those below it; an item without a comma blocks
/// a name. Neither gives a rule if that is no domain name.
pub proof fn law_item_name(d: Seq<char>)
    ensures
        parser::mihomo_item(seq!['+', '.'] + d) == (if parser::valid_domain(d) {
            Some(listed(ActionView::Block, RuleType::DomainSuffix, d))
        } else {
            None
        }),
        !d.contains(',') && !(d.len() >= 2 && d[0] == '+' && d[1] == '.') ==> parser::mihomo_item(d)
            == (if parser::valid_domain(d) {
            Some(listed(ActionView::Block, RuleType::DomainExact, d))
        } else {
            None
        }),
        parser::unknown_kind_of(seq!['+', '.'] + d) is None,
        !d.contains(',') ==> parser::unknown_kind_of(d) is None,
{
    reveal_strlit("+.");
    let item = seq!['+', '.'] + d;
    assert(item.subrange(0, 2) =~= "+."@);
    assert(item.skip(2) =~= d);
    if !d.contains(',') {
        text_laws::law_before_and_behind(d, ',', seq![]);
        if "+."@.is_prefix_of(d) {
            assert(d.subrange(0, 2)[0] == d[0]);
            assert(d.subrange(0, 2)[1] == d[1]);
        }
    }
}

/// An item with a comma is a kind before the first one, in any case, and a value behind
/// it, each with or without white space around it.
pub proof fn law_item_typed(
    w1: Seq<char>,
    kind: Seq<char>,
    w2: Seq<char>,
    w3: Seq<char>,
    value: Seq<char>,
    w4: Seq<char>,
)
    requires
        text_laws::all_white(w1),
        text_laws::all_white(w2),
        text_laws::all_white(w3),
        text_laws::all_white(w4),
        text_laws::bare(kind),
        text_laws::bare(value),
        !kind.contains(','),
        !(w1.len() == 0 && kind.len() >= 2 && kind[0] == '+' && kind[1] == '.'),
    ensures
        ({
            let item = (w1 + kind + w2) + seq![','] + (w3 + value + w4);
            let up = text::uppercase(kind);
            &&& parser::mihomo_item(item) == parser::mihomo_typed(up, value)
            &&& parser::unknown_kind_of(item) == (if up == seq!['D', 'O', 'M', 'A', 'I', 'N'] || up
                == seq!['D', 'O', 'M', 'A', 'I', 'N', '-', 'S', 'U', 'F', 'F', 'I', 'X'] || up
                == seq!['D', 'O', 'M', 'A', 'I', 'N', '-', 'K', 'E', 'Y', 'W', 'O', 'R', 'D'] || up
                == seq!['D', 'O', 'M', 'A', 'I', 'N', '-', 'R', 'E', 'G', 'E', 'X'] || up == seq![
                'I', 'P', '-', 'C', 'I', 'D', 'R',
            ] || up == seq!['I', 'P', '-', 'C', 'I', 'D', 'R', '6'] {
                None
            } else {
                Some(up)
            })
        }),
{
    reveal_strlit("+.");
    lemma_kinds();
    let head = w1 + kind + w2;
    let rest = w3 + value + w4;
    let item = head + seq![','] + rest;
    assert(!head.contains(',')) by {
        assert forall|j: int| 0 <= j < head.len() implies head[j] != ',' by {
            if j < w1.len() {
                assert(head[j] == w1[j]);
            } else if j < w1.len() + kind.len() {
                assert(head[j] == kind[j - w1.len()]);
                assert(kind.contains(kind[j - w1.len()]));
            } else {
                assert(head[j] == w2[j - w1.len() - kind.len()]);
            }
        }
    }
    text_laws::law_before_and_behind(head, ',', rest);
    text_laws::law_trimmed(w1, kind, w2);
    text_laws::law_trimmed(w3, value, w4);
    if "+."@.is_prefix_of(item) {
        assert(item.subrange(0, 2)[0] == item[0]);
        assert(item.subrange(0, 2)[1] == item[1]);
        if w1.len() > 0 {
            assert(item[0] == w1[0]);
        } else if kind.len() >= 2 {
            assert(item[0] == kind[0] && item[1] == kind[1]);
        } else if kind.len() == 1 {
            if w2.len() > 0 {
                assert(item[1] == w2[0]);
            }
        } else if w2.len() > 0 {
            assert(item[0] == w2[0]);
        }
    }
}

/// A line of a Mihomo list, trimmed, and with `a` in front of it: whether the payload
/// goes on behind it.
pub proof fn law_payload_line(
    a: Seq<char>,
    line: Seq<char>,
    b: Seq<char>,
    in_payload: bool,
    later: Seq<Seq<char>>,
)
    requires
        text_laws::all_white(a),
        text_laws::all_white(b),
        text_laws::bare(line),
        !(line.len() >= 2 && line[0] == '-' && line[1] == ' '),
    ensures
        ({
            let lines = seq![a + line + b] + later;
            let on = if line.len() == 0 || line[0] == '#' {
                in_payload
            } else if seq!['p', 'a', 'y', 'l', 'o', 'a', 'd', ':'].is_prefix_of(line) {
                true
            } else {
                in_payload && a.len() > 0 && (a[0] == ' ' || a[0] == '\t')
            };
            &&& parser::mihomo_lines(lines, in_payload) == parser::mihomo_lines(later, on)
            &&& parser::unknown_kinds_in(lines, in_payload) == parser::unknown_kinds_in(later, on)
        }),
{
    reveal_strlit("payload:");
    reveal_strlit("- ");
    assert("payload:"@ =~= seq!['p', 'a', 'y', 'l', 'o', 'a', 'd', ':']);
    let whole = a + line + b;
    let lines = seq![whole] + later;
    text_laws::law_trimmed(a, line, b);
    assert(lines.drop_first() =~= later);
    assert(lines[0] == whole);
    if "- "@.is_prefix_of(line) {
        assert(line.subrange(0, 2)[0] == line[0]);
        assert(line.subrange(0, 2)[1] == line[1]);
    }
    if line.len() > 0 {
        if a.len() > 0 {
            assert(whole[0] == a[0]);
        } else {
            assert(whole[0] == line[0]);
        }
    }
}

/// In the payload, what follows `- ` is an item, without double and then single quotes
/// around it: it gives its rule, or its unknown kind, and the payload goes on. Outside
/// of the payload it gives nothing.
pub proof fn law_payload_item(
    a: Seq<char>,
    q1: Seq<char>,
    q2: Seq<char>,
    core: Seq<char>,
    q3: Seq<char>,
    q4: Seq<char>,
    b: Seq<char>,
    later: Seq<Seq<char>>,
)
    requires
        text_laws::all_white(a),
        text_laws::all_white(b),
        text_laws::all_of(q1, '"'),
        text_laws::all_of(q2, '\''),
        text_laws::all_of(q3, '\''),
        text_laws::all_of(q4, '"'),
        text_laws::free_of(core, '\''),
        text_laws::free_of(q2 + core + q3, '"'),
        q1 + q2 + core + q3 + q4 != Seq::<char>::empty(),
        text_laws::bare(seq!['-', ' '] + (q1 + q2 + core + q3 + q4)),
    ensures
        ({
            let line = a + (seq!['-', ' '] + (q1 + q2 + core + q3 + q4)) + b;
            let lines = seq![line] + later;
            &&& parser::mihomo_lines(lines, true) == (match parser::mihomo_item(core) {
                Some(r) => seq![r],
                None => seq![],
            }) + parser::mihomo_lines(later, true)
            &&& parser::unknown_kinds_in(lines, true) == (match parser::unknown_kind_of(core) {
                Some(k) => seq![k],
                None => seq![],
            }) + parser::unknown_kinds_in(later, true)
            &&& parser::mihomo_lines(lines, false) == parser::mihomo_lines(later, false)
            &&& parser::unknown_kinds_in(lines, false) == parser::unknown_kinds_in(later, false)
        }),
{
    reveal_strlit("payload:");
    reveal_strlit("- ");
    let x = q1 + q2 + core + q3 + q4;
    let t = seq!['-', ' '] + x;
    let line = a + t + b;
    let lines = seq![line] + later;
    text_laws::law_trimmed(a, t, b);
    assert(t.subrange(0, 2) =~= "- "@);
    assert(t.skip(2) =~= x);
    assert(t[0] == '-');
    if "payload:"@.is_prefix_of(t) {
        assert(t.subrange(0, 8)[0] == t[0]);
    }
    assert(x =~= q1 + (q2 + core + q3) + q4);
    text_laws::law_trimmed_of(q1, q2 + core + q3, q4, '"');
    text_laws::law_trimmed_of(q2, core, q3, '\'');
    assert(parser::unquoted(x) == core);
    assert(lines.drop_first() =~= later);
    assert(lines[0] == line);
    if parser::mihomo_item(core) is None {
        assert(Seq::<RuleView>::empty() + parser::mihomo_lines(later, true)
            =~= parser::mihomo_lines(later, true));
    }
    if parser::unknown_kind_of(core) is None {
        assert(Seq::<Seq<char>>::empty() + parser::unknown_kinds_in(later, true)
            =~= parser::unknown_kinds_in(later, true));
    }
}

/// A Mihomo list begins outside of the payload.
#[verifier::spinoff_prover]
#[verifier::rlimit(60)]
pub proof fn law_mihomo_start(content: Seq<char>)
    ensures
        parser::mihomo_rules(content) == parser::mihomo_lines(text::lines_of(content), false),
        parser::mihomo_lines(Seq::<Seq<char>>::empty(), true).len() == 0,
        parser::mihomo_lines(Seq::<Seq<char>>::empty(), false).len() == 0,
        parser::unknown_kinds_in(Seq::<Seq<char>>::empty(), true).len() == 0,
        parser::unknown_kinds_in(Seq::<Seq<char>>::empty(), false).len() == 0,
        !text::occurs(seq!['p', 'a', 'y', 'l', 'o', 'a', 'd', ':'], content)
            ==> parser::mihomo_rules(content).len() == 0,
{
    reveal_strlit("payload:");
    let word = seq!['p', 'a', 'y', 'l', 'o', 'a', 'd', ':'];
    assert("payload:"@ =~= word);
    if !text::occurs(word, content) {
        let lines = text::lines_of(content);
        assert forall|i: int| 0 <= i < lines.len() implies !"payload:"@.is_prefix_of(
            text::trimmed(#[trigger] lines[i]),
        ) by {
            if "payload:"@.is_prefix_of(text::trimmed(lines[i])) {
                let t = text::trimmed(lines[i]);
                let (a, b) = text_laws::law_trimmed_parts(lines[i]);
                assert(t =~= word + t.skip(8)) by {
                    assert(t =~= t.subrange(0, 8) + t.skip(8));
                }
                assert(lines[i] =~= a + word + (t.skip(8) + b));
                text_laws::law_occurs(a, word, t.skip(8) + b);
                lemma_line_in(content, i);
                let (u, v) = text_laws::law_occurs_parts(lines[i], content);
                assert(content =~= (u + a) + word + (t.skip(8) + b + v));
                text_laws::law_occurs(u + a, word, t.skip(8) + b + v);
            }
        }
        parser_laws::law_mihomo_needs_payload(lines, seq![]);
        assert(lines + Seq::<Seq<char>>::empty() =~= lines);
    }
}

/// Each line of a text occurs in it.
#[verifier::spinoff_prover]
#[verifier::rlimit(60)]
proof fn lemma_line_in(s: Seq<char>, i: int)
    requires
        0 <= i < text::lines_of(s).len(),
    ensures
        text::occurs(text::lines_of(s)[i], s),
    decreases s.len(),
{
    text::lemma_first_pos(s, '\n');
    let k = text::first_pos(s, '\n');
    if s.len() > 0 {
        if k < s.len() {
            let first = text::without_return(s.take(k));
            let rest = s.skip(k + 1);
            if i == 0 {
                assert(s =~= Seq::<char>::empty() + first + s.skip(first.len() as int));
                text_laws::law_occurs(seq![], first, s.skip(first.len() as int));
            } else {
                assert(text::lines_of(s)[i] == text::lines_of(rest)[i - 1]);
                lemma_line_in(rest, i - 1);
                let line = text::lines_of(rest)[i - 1];
                let (u, v) = text_laws::law_occurs_parts(line, rest);
                assert(s =~= s.take(k + 1) + rest);
                assert(s.take(k + 1) + (u + line + v) =~= (s.take(k + 1) + u) + line + v);
                text_laws::law_occurs(s.take(k + 1) + u, line, v);
            }
        } else {
            assert(s =~= Seq::<char>::empty() + s + Seq::<char>::empty());
            text_laws::law_occurs(seq![], s, seq![]);
        }
    }
}

} // verus!
