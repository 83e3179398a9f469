//! What holds of the rule lists as a whole, and of every line of a given form.
use vstd::prelude::*;
use vstd::utf8::*;

use crate::parser;
use crate::rule;
use crate::rule::{ActionView, RuleType, RuleView};
use crate::text;

verus! {

// ── Lists line by line ──────────────────────────────────────────────────────

/// White space at the end of a text does not show once it is trimmed.
proof fn lemma_trimmed_push(s: Seq<char>, w: char)
    requires
        text::white_space(w),
    ensures
        text::trimmed(s.push(w)) == text::trimmed(s),
{
    let p = text::is_white();
    lemma_skip_leading_push(s, w);
    let u = text::skip_leading(s, p);
    if u.len() > 0 {
        assert(u.push(w).drop_last() =~= u);
    }
}

proof fn lemma_skip_leading_push(s: Seq<char>, w: char)
    requires
        text::white_space(w),
    ensures
        text::skip_leading(s.push(w), text::is_white()) == (if text::skip_leading(
            s,
            text::is_white(),
        ).len() > 0 {
            text::skip_leading(s, text::is_white()).push(w)
        } else {
            seq![]
        }),
    decreases s.len(),
{
    let p = text::is_white();
    if s.len() > 0 {
        if p(s[0]) {
            assert(s.push(w).drop_first() =~= s.drop_first().push(w));
            lemma_skip_leading_push(s.drop_first(), w);
        }
    } else {
        reveal_with_fuel(text::skip_leading, 2);
        assert(s.push(w).drop_first() =~= seq![]);
    }
}

/// The lines of a text that a line feed divides are those of its two parts.
proof fn lemma_lines_append(a: Seq<char>, b: Seq<char>)
    ensures
        text::lines_of(a.push('\n') + b) == text::lines_of(a.push('\n')) + text::lines_of(b),
    decreases a.len(),
{
    let whole = a.push('\n') + b;
    let head = a.push('\n');
    let k = text::first_pos(head, '\n');
    text::lemma_first_pos(head, '\n');
    if k == head.len() {
        assert(head[a.len() as int] != '\n');
    }
    assert forall|j: int| 0 <= j < k implies whole[j] != '\n' by {
        assert(whole[j] == head[j]);
    }
    text::lemma_first_pos_is(whole, '\n', k);
    assert(whole.take(k) =~= head.take(k));
    if k < a.len() {
        let rest = a.skip(k + 1);
        assert(head.skip(k + 1) =~= rest.push('\n'));
        assert(whole.skip(k + 1) =~= rest.push('\n') + b);
        lemma_lines_append(rest, b);
        assert(text::lines_of(whole) =~= text::lines_of(head) + text::lines_of(b));
    } else {
        assert(head.skip(k + 1) =~= seq![]);
        assert(text::lines_of(head.skip(k + 1)) =~= seq![]);
        assert(whole.skip(k + 1) =~= b);
        assert(text::lines_of(whole) =~= text::lines_of(head) + text::lines_of(b));
    }
}

proof fn lemma_rules_in_append(
    a: Seq<Seq<char>>,
    b: Seq<Seq<char>>,
    entry: spec_fn(Seq<char>) -> Option<RuleView>,
)
    ensures
        parser::rules_in(a + b, entry) == parser::rules_in(a, entry) + parser::rules_in(b, entry),
    decreases a.len(),
{
    if a.len() == 0 {
        assert(a + b =~= b);
        assert(parser::rules_in(a, entry) + parser::rules_in(b, entry) =~= parser::rules_in(
            b,
            entry,
        ));
    } else {
        assert((a + b).drop_first() =~= a.drop_first() + b);
        lemma_rules_in_append(a.drop_first(), b, entry);
        assert(parser::rules_in(a + b, entry) =~= parser::rules_in(a, entry) + parser::rules_in(
            b,
            entry,
        ));
    }
}

/// The entry of a line depends on the trimmed line alone, and a blank line has none.
spec fn trims(entry: spec_fn(Seq<char>) -> Option<RuleView>) -> bool {
    &&& entry(seq![]) is None
    &&& forall|s: Seq<char>, t: Seq<char>|
        text::trimmed(s) == text::trimmed(t) ==> #[trigger] entry(s) == #[trigger] entry(t)
}

/// A line feed at the end of a list changes none of its rules.
proof fn lemma_last_line_feed(a: Seq<char>, entry: spec_fn(Seq<char>) -> Option<RuleView>)
    requires
        trims(entry),
    ensures
        parser::rules_in(text::lines_of(a.push('\n')), entry) == parser::rules_in(
            text::lines_of(a),
            entry,
        ),
    decreases a.len(),
{
    let head = a.push('\n');
    let k = text::first_pos(a, '\n');
    text::lemma_first_pos(a, '\n');
    assert forall|j: int| 0 <= j < k implies head[j] != '\n' by {
        assert(head[j] == a[j]);
    }
    text::lemma_first_pos_is(head, '\n', k);
    assert(head.take(k) =~= a.take(k));
    if k < a.len() {
        let rest = a.skip(k + 1);
        assert(head.skip(k + 1) =~= rest.push('\n'));
        lemma_last_line_feed(rest, entry);
        assert(text::lines_of(head).drop_first() =~= text::lines_of(rest.push('\n')));
        assert(text::lines_of(a).drop_first() =~= text::lines_of(rest));
    } else {
        let line = text::without_return(a);
        assert(head.take(k) =~= a);
        assert(head.skip(k + 1) =~= seq![]);
        assert(text::lines_of(head.skip(k + 1)) =~= seq![]);
        assert(text::lines_of(head) =~= seq![line]);
        assert(text::lines_of(head).drop_first() =~= seq![]);
        reveal_with_fuel(parser::rules_in, 2);
        if a.len() > 0 {
            assert(text::lines_of(a) =~= seq![a]);
            assert(text::lines_of(a).drop_first() =~= seq![]);
            if a.last() == '\r' {
                assert(a =~= line.push('\r'));
                lemma_trimmed_push(line, '\r');
            }
            assert(entry(line) == entry(a));
        } else {
            assert(line =~= seq![]);
        }
    }
}

/// An AdGuard list of two parts on different lines holds the rules of the first part
/// and then those of the second.
pub proof fn law_adguard_rules_add_up(a: Seq<char>, b: Seq<char>)
    ensures
        parser::adguard_rules(a.push('\n') + b) == parser::adguard_rules(a)
            + parser::adguard_rules(b),
{
    let entry = parser::adguard_entries();
    assert(text::trimmed(Seq::<char>::empty()) =~= seq![]);
    assert(trims(entry));
    lemma_lines_append(a, b);
    lemma_rules_in_append(text::lines_of(a.push('\n')), text::lines_of(b), entry);
    lemma_last_line_feed(a, entry);
}

/// A domain list of two parts on different lines holds the rules of the first part
/// and then those of the second.
pub proof fn law_domain_rules_add_up(a: Seq<char>, b: Seq<char>)
    ensures
        parser::domain_list_rules(a.push('\n') + b) == parser::domain_list_rules(a)
            + parser::domain_list_rules(b),
{
    let entry = parser::domain_entries();
    assert(text::trimmed(Seq::<char>::empty()) =~= seq![]);
    assert(trims(entry));
    lemma_lines_append(a, b);
    lemma_rules_in_append(text::lines_of(a.push('\n')), text::lines_of(b), entry);
    lemma_last_line_feed(a, entry);
}

// ── Lines of an AdGuard list ────────────────────────────────────────────────

proof fn lemma_skip_trailing_add(x: Seq<char>, m: Seq<char>, p: spec_fn(char) -> bool)
    requires
        x.len() > 0,
        !p(x.last()),
    ensures
        text::skip_trailing(x + m, p) == x + text::skip_trailing(m, p),
    decreases m.len(),
{
    if m.len() == 0 {
        assert(x + m =~= x);
        assert(x + text::skip_trailing(m, p) =~= x);
    } else {
        assert((x + m).last() == m.last());
        if p(m.last()) {
            assert((x + m).drop_last() =~= x + m.drop_last());
            lemma_skip_trailing_add(x, m.drop_last(), p);
        }
    }
}

/// Trimming a text whose first part has no white space at either end trims the end of
/// what follows it.
pub proof fn lemma_trimmed_add(x: Seq<char>, m: Seq<char>)
    requires
        x.len() > 0,
        !text::white_space(x[0]),
        !text::white_space(x.last()),
    ensures
        text::trimmed(x + m) == x + text::skip_trailing(m, text::is_white()),
{
    assert((x + m)[0] == x[0]);
    lemma_skip_trailing_add(x, m, text::is_white());
}

/// A domain name holds none of the characters that set it off, and stays as it is when
/// it is trimmed.
pub proof fn lemma_domain_plain(d: Seq<char>)
    requires
        parser::valid_domain(d),
    ensures
        text::trimmed(d) == d,
        text::trimmed_end_of(d, '.') == d,
        text::without_leading(d, "*."@) == d,
        text::before(d, '$') == d,
        text::before(d, '#') == d,
        text::first_pos(d, ',') == d.len(),
        is_ascii_chars(d),
{
    reveal_strlit("*.");
    assert(parser::domain_char(d[0]));
    assert(parser::domain_char(d[d.len() - 1]));
    text::lemma_trimmed_same(d);
    if "*."@.is_prefix_of(d) {
        assert(d.subrange(0, 2)[0] == d[0]);
    }
    text::lemma_first_pos_is(d, '$', d.len() as int);
    text::lemma_first_pos_is(d, '#', d.len() as int);
    text::lemma_first_pos_is(d, ',', d.len() as int);
    assert(d.take(d.len() as int) =~= d);
}

/// What may stand between the bars and the name.
pub open spec fn star_or_none(star: Seq<char>) -> bool {
    star == ""@ || star == "*."@
}

proof fn lemma_barred_pattern(star: Seq<char>, d: Seq<char>, m: Seq<char>, action: ActionView)
    requires
        star_or_none(star),
        parser::valid_domain(d),
    ensures
        parser::adguard_pattern("||"@ + star + d + "^"@ + m, action) == Some(
            rule::plain_rule(action, RuleType::DomainSuffix, text::lowercase(d)),
        ),
{
    reveal_strlit("||");
    reveal_strlit("");
    reveal_strlit("*.");
    reveal_strlit("^");
    let p = "||"@ + star + d + "^"@ + m;
    let rest = star + d + "^"@ + m;
    let name = star + d;
    lemma_domain_plain(d);
    assert(parser::domain_char(d[d.len() - 1]));
    assert(p[0] == '|');
    assert(p.subrange(0, 2) =~= "||"@);
    assert(p.skip(2) =~= rest);
    assert forall|j: int| 0 <= j < name.len() implies name[j] != '^' && name[j] != '$' by {
        if j >= star.len() {
            assert(name[j] == d[j - star.len()]);
        }
    }
    assert forall|j: int| 0 <= j < name.len() implies rest[j] != '^' by {
        assert(rest[j] == name[j]);
    }
    text::lemma_first_pos_is(rest, '^', name.len() as int);
    assert(text::before(rest, '^') =~= name);
    text::lemma_first_pos_is(name, '$', name.len() as int);
    assert(text::before(name, '$') =~= name);
    assert(name.last() == d.last());
    if star == ""@ {
        assert(name =~= d);
    } else {
        assert(name[0] == '*');
    }
    text::lemma_trimmed_same(name);
    if star == "*."@ {
        assert(name.subrange(0, 2) =~= "*."@);
        assert(name.skip(2) =~= d);
    }
}

/// `||name^`, and `||*.name^`, with whatever follows: the name and the names below it
/// are blocked.
pub proof fn law_adguard_blocks_below(star: Seq<char>, d: Seq<char>, m: Seq<char>)
    requires
        star_or_none(star),
        parser::valid_domain(d),
    ensures
        parser::adguard_entry("||"@ + star + d + "^"@ + m) == Some(
            rule::suffix_block(text::lowercase(d)),
        ),
{
    reveal_strlit("||");
    reveal_strlit("^");
    reveal_strlit("@@");
    let x = "||"@ + star + d + "^"@;
    let m2 = text::skip_trailing(m, text::is_white());
    assert(x[0] == '|' && x.last() == '^');
    lemma_trimmed_add(x, m);
    let line = x + m2;
    assert(line[0] == '|');
    assert(!"@@"@.is_prefix_of(line)) by {
        if "@@"@.is_prefix_of(line) {
            assert(line.subrange(0, 2)[0] == line[0]);
        }
    }
    lemma_not_hosts(line);
    lemma_barred_pattern(star, d, m2, ActionView::Block);
}

/// `@@||name^`, and `@@||*.name^`, with whatever follows: the name and the names below
/// it are allowed.
pub proof fn law_adguard_allows_below(star: Seq<char>, d: Seq<char>, m: Seq<char>)
    requires
        star_or_none(star),
        parser::valid_domain(d),
    ensures
        parser::adguard_entry("@@"@ + ("||"@ + star + d + "^"@ + m)) == Some(
            rule::suffix_allow(text::lowercase(d)),
        ),
{
    reveal_strlit("||");
    reveal_strlit("^");
    reveal_strlit("@@");
    let x = "||"@ + star + d + "^"@;
    let y = "@@"@ + x;
    let m2 = text::skip_trailing(m, text::is_white());
    assert("@@"@ + (x + m) =~= y + m);
    assert(y[0] == '@' && y.last() == '^');
    lemma_trimmed_add(y, m);
    let line = y + m2;
    assert(line.subrange(0, 2) =~= "@@"@);
    assert(line.skip(2) =~= x + m2);
    lemma_barred_pattern(star, d, m2, ActionView::Allow);
}

proof fn lemma_not_hosts(line: Seq<char>)
    requires
        line.len() > 0,
        line[0] != '1',
        line[0] != '0',
        line[0] != ':',
    ensures
        !parser::hosts_line(line),
{
    reveal_strlit("127.0.0.1 ");
    reveal_strlit("0.0.0.0 ");
    reveal_strlit("::1 ");
    reveal_strlit(":: ");
    if "127.0.0.1 "@.is_prefix_of(line) {
        assert(line.subrange(0, 10)[0] == line[0]);
    }
    if "0.0.0.0 "@.is_prefix_of(line) {
        assert(line.subrange(0, 8)[0] == line[0]);
    }
    if "::1 "@.is_prefix_of(line) {
        assert(line.subrange(0, 4)[0] == line[0]);
    }
    if ":: "@.is_prefix_of(line) {
        assert(line.subrange(0, 3)[0] == line[0]);
    }
}

/// `/regex/` blocks, and `@@/regex/` allows, what the regular expression finds.
pub proof fn law_adguard_regex(re: Seq<char>)
    requires
        re.len() > 0,
    ensures
        parser::adguard_entry("/"@ + re + "/"@) == Some(
            rule::plain_rule(ActionView::Block, RuleType::Regex, re),
        ),
        parser::adguard_entry("@@"@ + ("/"@ + re + "/"@)) == Some(
            rule::plain_rule(ActionView::Allow, RuleType::Regex, re),
        ),
{
    reveal_strlit("/");
    reveal_strlit("@@");
    let p = "/"@ + re + "/"@;
    text::lemma_trimmed_same(p);
    assert(p[0] == '/');
    assert(!"@@"@.is_prefix_of(p)) by {
        if "@@"@.is_prefix_of(p) {
            assert(p.subrange(0, 2)[0] == p[0]);
        }
    }
    lemma_not_hosts(p);
    assert(parser::unslashed(p) =~= re);
    let line = "@@"@ + p;
    text::lemma_trimmed_same(line);
    assert(line.subrange(0, 2) =~= "@@"@);
    assert(line.skip(2) =~= p);
}

/// A name alone on a line is blocked.
pub proof fn law_adguard_plain_name(d: Seq<char>)
    requires
        parser::valid_domain(d),
    ensures
        parser::adguard_entry(d) == Some(rule::exact_block(text::lowercase(d))),
{
    reveal_strlit("@@");
    reveal_strlit("||");
    lemma_domain_plain(d);
    assert(parser::domain_char(d[0]));
    assert(!"@@"@.is_prefix_of(d)) by {
        if "@@"@.is_prefix_of(d) {
            assert(d.subrange(0, 2)[0] == d[0]);
        }
    }
    assert(!"||"@.is_prefix_of(d)) by {
        if "||"@.is_prefix_of(d) {
            assert(d.subrange(0, 2)[0] == d[0]);
        }
    }
    assert(!parser::hosts_line(d)) by {
        if parser::hosts_line(d) {
            parser::lemma_hosts_space(d);
            text::lemma_first_pos(d, ' ');
            assert(parser::domain_char(d[text::first_pos(d, ' ')]));
        }
    }
}

/// The addresses that a hosts file sends unwanted names to.
pub open spec fn hosts_address(a: Seq<char>) -> bool {
    a == "127.0.0.1"@ || a == "0.0.0.0"@ || a == "::1"@ || a == "::"@
}

/// A line of a hosts file blocks the name in it, unless that is `localhost`.
pub proof fn law_adguard_hosts(a: Seq<char>, d: Seq<char>)
    requires
        hosts_address(a),
        parser::valid_domain(d),
    ensures
        parser::adguard_entry(a + " "@ + d) == (if d == "localhost"@ {
            None
        } else {
            Some(rule::exact_block(d))
        }),
{
    reveal_strlit("127.0.0.1");
    reveal_strlit("0.0.0.0");
    reveal_strlit("::1");
    reveal_strlit("::");
    reveal_strlit("127.0.0.1 ");
    reveal_strlit("0.0.0.0 ");
    reveal_strlit("::1 ");
    reveal_strlit(":: ");
    reveal_strlit(" ");
    reveal_strlit("@@");
    let line = a + " "@ + d;
    let k = a.len() as int;
    assert(parser::domain_char(d[d.len() - 1]));
    assert(line[0] == a[0] && line.last() == d.last());
    text::lemma_trimmed_same(line);
    assert(!"@@"@.is_prefix_of(line)) by {
        if "@@"@.is_prefix_of(line) {
            assert(line.subrange(0, 2)[0] == line[0]);
        }
    }
    assert(a + " "@ =~= line.subrange(0, k + 1));
    if a == "127.0.0.1"@ {
        assert(a + " "@ =~= "127.0.0.1 "@);
    } else if a == "0.0.0.0"@ {
        assert(a + " "@ =~= "0.0.0.0 "@);
    } else if a == "::1"@ {
        assert(a + " "@ =~= "::1 "@);
    } else {
        assert(a + " "@ =~= ":: "@);
    }
    assert(parser::hosts_line(line));
    assert forall|j: int| 0 <= j < k implies line[j] != ' ' by {
        assert(line[j] == a[j]);
    }
    text::lemma_first_pos_is(line, ' ', k);
    assert(text::behind(line, ' ') =~= d);
    assert(parser::domain_char(d[0]));
    lemma_word_of_domain(d);
}

proof fn lemma_word_of_domain(d: Seq<char>)
    requires
        forall|i: int| 0 <= i < d.len() ==> parser::domain_char(#[trigger] d[i]),
    ensures
        text::first_word(d) == d,
        text::leading_word(d) == d,
    decreases d.len(),
{
    if d.len() > 0 {
        assert(parser::domain_char(d[0]));
        let rest = d.drop_first();
        assert forall|i: int| 0 <= i < rest.len() implies parser::domain_char(
            #[trigger] rest[i],
        ) by {
            assert(rest[i] == d[i + 1]);
        }
        lemma_word_of_domain(rest);
        assert(seq![d[0]] + rest =~= d);
    }
}

/// The list of one line without a rule in it is empty.
proof fn lemma_one_line(line: Seq<char>, entry: spec_fn(Seq<char>) -> Option<RuleView>)
    requires
        trims(entry),
        !line.contains('\n'),
        entry(line) is None,
    ensures
        parser::rules_in(text::lines_of(line), entry) == Seq::<RuleView>::empty(),
{
    text::lemma_first_pos(line, '\n');
    reveal_with_fuel(parser::rules_in, 2);
    if line.len() > 0 {
        assert(text::lines_of(line) =~= seq![line]);
        assert(text::lines_of(line).drop_first() =~= seq![]);
    }
}

/// A line of an AdGuard list that is blank or a comment.
pub open spec fn blank_or_comment(line: Seq<char>) -> bool {
    let line = text::trimmed(line);
    line.len() == 0 || line[0] == '!' || line[0] == '#'
}

/// A comment or a blank line before a list adds no rule to it.
pub proof fn law_adguard_comment(line: Seq<char>, rest: Seq<char>)
    requires
        blank_or_comment(line),
        !line.contains('\n'),
    ensures
        parser::adguard_entry(line) is None,
        parser::adguard_rules(line.push('\n') + rest) == parser::adguard_rules(rest),
{
    let entry = parser::adguard_entries();
    assert(text::trimmed(Seq::<char>::empty()) =~= seq![]);
    assert(trims(entry));
    lemma_one_line(line, entry);
    law_adguard_rules_add_up(line, rest);
    assert(Seq::<RuleView>::empty() + parser::adguard_rules(rest) =~= parser::adguard_rules(rest));
}

/// What holds of the rule in any line holds of every rule in a list.
proof fn lemma_rules_all(
    lines: Seq<Seq<char>>,
    entry: spec_fn(Seq<char>) -> Option<RuleView>,
    good: spec_fn(RuleView) -> bool,
)
    requires
        forall|line: Seq<char>| (#[trigger] entry(line)) matches Some(r) ==> good(r),
    ensures
        forall|i: int|
            0 <= i < parser::rules_in(lines, entry).len() ==> good(
                #[trigger] parser::rules_in(lines, entry)[i],
            ),
    decreases lines.len(),
{
    if lines.len() > 0 {
        let rest = lines.drop_first();
        lemma_rules_all(rest, entry, good);
        if let Some(r) = entry(lines[0]) {
            let all = parser::rules_in(lines, entry);
            assert forall|i: int| 0 <= i < all.len() implies good(#[trigger] all[i]) by {
                if i > 0 {
                    assert(all[i] == parser::rules_in(rest, entry)[i - 1]);
                }
            }
        }
    }
}

/// A rule without a source whose pattern is a regular expression or a domain name,
/// and whose action is one of the two that lists know.
pub open spec fn list_rule(r: RuleView) -> bool {
    &&& r.source is None
    &&& r.action == ActionView::Block || r.action == ActionView::Allow
    &&& match r.rule_type {
        RuleType::Regex => true,
        RuleType::DomainExact | RuleType::DomainSuffix => parser::valid_domain(r.pattern),
        _ => false,
    }
}

/// The lower case of a domain name is one.
proof fn lemma_lower_valid(d: Seq<char>)
    requires
        parser::valid_domain(d),
    ensures
        parser::valid_domain(text::lowercase(d)),
{
    lemma_domain_plain(d);
    let l = text::lowercase(d);
    assert forall|i: int| 0 <= i < l.len() implies parser::domain_char(#[trigger] l[i]) by {
        assert(parser::domain_char(d[i]));
    }
    assert(parser::domain_char(d[0]));
    assert(parser::domain_char(d[d.len() - 1]));
}

proof fn lemma_pattern_rule(p: Seq<char>, action: ActionView)
    requires
        action == ActionView::Block || action == ActionView::Allow,
    ensures
        parser::adguard_pattern(p, action) matches Some(r) ==> list_rule(r),
{
    let barred = parser::barred_domain(p.skip(2));
    let bare = parser::bare_domain(p);
    if parser::valid_domain(barred) {
        lemma_lower_valid(barred);
    }
    if parser::valid_domain(bare) {
        lemma_lower_valid(bare);
    }
}

/// Every rule in an AdGuard list blocks or allows, and holds a regular expression or
/// the name of a domain.
pub proof fn law_adguard_rules_valid(content: Seq<char>)
    ensures
        forall|i: int|
            0 <= i < parser::adguard_rules(content).len() ==> list_rule(
                #[trigger] parser::adguard_rules(content)[i],
            ),
{
    let entry = parser::adguard_entries();
    let good = |r: RuleView| list_rule(r);
    assert forall|line: Seq<char>| (#[trigger] entry(line)) matches Some(r) implies good(
        entry(line)->0,
    ) by {
        let t = text::trimmed(line);
        lemma_pattern_rule(t.skip(2), ActionView::Allow);
        lemma_pattern_rule(t, ActionView::Block);
    }
    lemma_rules_all(text::lines_of(content), entry, good);
}

// ── Lines of a domain list ──────────────────────────────────────────────────

/// A rule that blocks a name, or a name and those below it.
pub open spec fn name_block(r: RuleView) -> bool {
    &&& r.source is None
    &&& r.action == ActionView::Block
    &&& r.rule_type == RuleType::DomainExact || r.rule_type == RuleType::DomainSuffix
    &&& parser::valid_domain(r.pattern)
}

/// Every rule in a domain list blocks a name, or a name and those below it.
pub proof fn law_domain_rules_valid(content: Seq<char>)
    ensures
        forall|i: int|
            0 <= i < parser::domain_list_rules(content).len() ==> name_block(
                #[trigger] parser::domain_list_rules(content)[i],
            ),
{
    let entry = parser::domain_entries();
    let good = |r: RuleView| name_block(r);
    lemma_rules_all(text::lines_of(content), entry, good);
}

/// A name on a line of a domain list is blocked, with `*.` before it the names below it
/// too; what follows `#` does not matter.
pub proof fn law_domain_line(d: Seq<char>, comment: Seq<char>)
    requires
        parser::valid_domain(d),
    ensures
        parser::domain_entry(d) == Some(rule::exact_block(d)),
        parser::domain_entry("*."@ + d) == Some(rule::suffix_block(d)),
        parser::domain_entry(d + "#"@ + comment) == Some(rule::exact_block(d)),
        parser::domain_entry("*."@ + d + "#"@ + comment) == Some(rule::suffix_block(d)),
{
    reveal_strlit("*.");
    reveal_strlit("#");
    let starred = "*."@ + d;
    lemma_domain_plain(d);
    assert(parser::domain_char(d[0]));
    assert(parser::domain_char(d[d.len() - 1]));
    assert forall|j: int| 0 <= j < starred.len() implies starred[j] != '#' by {
        if j >= 2 {
            assert(starred[j] == d[j - 2]);
        }
    }
    assert(starred[0] == '*');
    assert(starred.last() == d.last());
    assert(starred.subrange(0, 2) =~= "*."@);
    assert(starred.skip(2) =~= d);
    assert(!"*."@.is_prefix_of(d)) by {
        if "*."@.is_prefix_of(d) {
            assert(d.subrange(0, 2)[0] == d[0]);
        }
    }
    lemma_before_hash(d, seq![]);
    lemma_before_hash(starred, seq![]);
    lemma_before_hash(d, "#"@ + comment);
    lemma_before_hash(starred, "#"@ + comment);
    assert(d + seq![] =~= d);
    assert(starred + seq![] =~= starred);
    assert(d + "#"@ + comment =~= d + ("#"@ + comment));
    assert(starred + "#"@ + comment =~= starred + ("#"@ + comment));
}

/// A line that begins with `x` and goes on with nothing or a comment: what stands before
/// the comment is `x`.
proof fn lemma_before_hash(x: Seq<char>, m: Seq<char>)
    requires
        x.len() > 0,
        !text::white_space(x[0]),
        !text::white_space(x.last()),
        forall|j: int| 0 <= j < x.len() ==> x[j] != '#',
        m.len() > 0 ==> m[0] == '#',
    ensures
        text::trimmed(x + m).len() > 0,
        text::trimmed(x + m)[0] == x[0],
        text::trimmed(text::before(text::trimmed(x + m), '#')) == x,
{
    lemma_trimmed_add(x, m);
    let m2 = text::skip_trailing(m, text::is_white());
    text::lemma_skip_trailing(m, text::is_white());
    if m2.len() > 0 {
        assert(m.subrange(0, m2.len() as int)[0] == m[0]);
    }
    let line = x + m2;
    assert forall|j: int| 0 <= j < x.len() implies line[j] != '#' by {
        assert(line[j] == x[j]);
    }
    text::lemma_first_pos_is(line, '#', x.len() as int);
    assert(text::before(line, '#') =~= x);
    text::lemma_trimmed_same(x);
}

/// A comment or a blank line before a domain list adds no rule to it.
pub proof fn law_domain_comment(line: Seq<char>, rest: Seq<char>)
    requires
        text::trimmed(line).len() == 0 || text::trimmed(line)[0] == '#',
        !line.contains('\n'),
    ensures
        parser::domain_entry(line) is None,
        parser::domain_list_rules(line.push('\n') + rest) == parser::domain_list_rules(rest),
{
    let entry = parser::domain_entries();
    assert(text::trimmed(Seq::<char>::empty()) =~= seq![]);
    assert(trims(entry));
    lemma_one_line(line, entry);
    law_domain_rules_add_up(line, rest);
    assert(Seq::<RuleView>::empty() + parser::domain_list_rules(rest)
        =~= parser::domain_list_rules(rest));
}

// ── Lines of a Mihomo list ──────────────────────────────────────────────────

/// A rule that blocks and has no source.
pub open spec fn payload_rule(r: RuleView) -> bool {
    &&& r.source is None
    &&& r.action == ActionView::Block
    &&& match r.rule_type {
        RuleType::Regex | RuleType::DomainKeyword => true,
        RuleType::DomainExact | RuleType::DomainSuffix => parser::valid_domain(r.pattern),
        RuleType::Other => false,
    }
}

proof fn lemma_mihomo_lines_valid(lines: Seq<Seq<char>>, in_payload: bool)
    ensures
        forall|i: int|
            0 <= i < parser::mihomo_lines(lines, in_payload).len() ==> payload_rule(
                #[trigger] parser::mihomo_lines(lines, in_payload)[i],
            ),
    decreases lines.len(),
{
    if lines.len() > 0 {
        let rest = lines.drop_first();
        let still = parser::payload_after(lines[0], in_payload);
        lemma_mihomo_lines_valid(rest, still);
        let all = parser::mihomo_lines(lines, in_payload);
        let later = parser::mihomo_lines(rest, still);
        match parser::payload_item(lines[0], in_payload) {
            Some(item) => match parser::mihomo_item(item) {
                Some(r) => {
                    assert(all == seq![r] + later);
                    assert(payload_rule(r));
                    assert forall|i: int| 0 <= i < all.len() implies payload_rule(
                        #[trigger] all[i],
                    ) by {
                        if i > 0 {
                            assert(all[i] == later[i - 1]);
                        }
                    }
                },
                None => {
                    assert(all == later);
                },
            },
            None => {
                assert(all == later);
            },
        }
    }
}

/// Every rule in a Mihomo list blocks: a name, a name and those below it, names with a
/// keyword in them, or what a regular expression finds.
pub proof fn law_mihomo_rules_valid(content: Seq<char>)
    ensures
        forall|i: int|
            0 <= i < parser::mihomo_rules(content).len() ==> payload_rule(
                #[trigger] parser::mihomo_rules(content)[i],
            ),
{
    lemma_mihomo_lines_valid(text::lines_of(content), false);
}

/// Lines before the payload hold no rules.
pub proof fn law_mihomo_needs_payload(lines: Seq<Seq<char>>, later: Seq<Seq<char>>)
    requires
        forall|i: int|
            0 <= i < lines.len() ==> !"payload:"@.is_prefix_of(text::trimmed(#[trigger] lines[i])),
    ensures
        parser::mihomo_lines(lines + later, false) == parser::mihomo_lines(later, false),
    decreases lines.len(),
{
    if lines.len() == 0 {
        assert(lines + later =~= later);
    } else {
        let rest = lines.drop_first();
        assert forall|i: int| 0 <= i < rest.len() implies !"payload:"@.is_prefix_of(
            text::trimmed(#[trigger] rest[i]),
        ) by {
            assert(rest[i] == lines[i + 1]);
        }
        law_mihomo_needs_payload(rest, later);
        assert((lines + later).drop_first() =~= rest + later);
        assert((lines + later)[0] == lines[0]);
    }
}

/// A line of a Mihomo list that is neither blank nor a comment, does not open a payload,
/// and is no item.
pub open spec fn other_key(line: Seq<char>) -> bool {
    let line = text::trimmed(line);
    &&& line.len() > 0
    &&& line[0] != '#'
    &&& !"payload:"@.is_prefix_of(line)
    &&& !"- "@.is_prefix_of(line)
}

/// `payload:` opens the payload, and in it each item gives its rule. An indented line
/// that is no item leaves the payload open; a new top-level key ends it. Blank lines and
/// comments change nothing.
pub proof fn law_mihomo_payload(line: Seq<char>, later: Seq<Seq<char>>, in_payload: bool)
    ensures
        "payload:"@.is_prefix_of(text::trimmed(line)) ==> parser::mihomo_lines(
            seq![line] + later,
            in_payload,
        ) == parser::mihomo_lines(later, true),
        "- "@.is_prefix_of(text::trimmed(line)) ==> parser::mihomo_lines(seq![line] + later, true)
            == (match parser::mihomo_item(parser::unquoted(text::trimmed(line).skip(2))) {
            Some(r) => seq![r],
            None => seq![],
        }) + parser::mihomo_lines(later, true),
        other_key(line) && parser::indented(line) ==> parser::mihomo_lines(
            seq![line] + later,
            in_payload,
        ) == parser::mihomo_lines(later, in_payload),
        other_key(line) && !parser::indented(line) ==> parser::mihomo_lines(
            seq![line] + later,
            in_payload,
        ) == parser::mihomo_lines(later, false),
        text::trimmed(line).len() == 0 || text::trimmed(line)[0] == '#' ==> parser::mihomo_lines(
            seq![line] + later,
            in_payload,
        ) == parser::mihomo_lines(later, in_payload),
{
    reveal_strlit("payload:");
    reveal_strlit("- ");
    let t = text::trimmed(line);
    assert((seq![line] + later).drop_first() =~= later);
    assert((seq![line] + later)[0] == line);
    if "payload:"@.is_prefix_of(t) {
        assert(t.subrange(0, 8)[0] == t[0]);
    }
    if "- "@.is_prefix_of(t) {
        assert(t.subrange(0, 2)[0] == t[0]);
        let item = parser::mihomo_item(parser::unquoted(t.skip(2)));
        if item is None {
            assert(Seq::<RuleView>::empty() + parser::mihomo_lines(later, true)
                =~= parser::mihomo_lines(later, true));
        }
    }
}

/// An item with an unknown kind gives no rule.
pub proof fn law_mihomo_unknown_kind(item: Seq<char>)
    ensures
        parser::unknown_kind_of(item) is Some ==> parser::mihomo_item(item) is None,
{
}

proof fn lemma_typed_item(kind: Seq<char>, value: Seq<char>)
    requires
        kind.len() > 0,
        is_ascii_chars(kind),
        text::ascii_upper(kind) == kind,
        !kind.contains(','),
        kind[0] != '+',
        !text::white_space(kind[0]),
        !text::white_space(kind.last()),
    ensures
        parser::mihomo_item(kind + ","@ + value) == parser::mihomo_typed(kind, text::trimmed(value)),
{
    reveal_strlit(",");
    reveal_strlit("+.");
    let item = kind + ","@ + value;
    assert(item[0] == kind[0]);
    if "+."@.is_prefix_of(item) {
        assert(item.subrange(0, 2)[0] == item[0]);
    }
    assert forall|j: int| 0 <= j < kind.len() implies item[j] != ',' by {
        assert(item[j] == kind[j]);
        assert(kind.contains(kind[j]));
    }
    text::lemma_first_pos_is(item, ',', kind.len() as int);
    assert(text::before(item, ',') =~= kind);
    assert(text::behind(item, ',') =~= value);
    text::lemma_trimmed_same(kind);
}

/// The items of a payload: a name, `+.` and a name, or a kind and a value.
pub proof fn law_mihomo_items(d: Seq<char>, value: Seq<char>)
    requires
        parser::valid_domain(d),
    ensures
        parser::mihomo_item(d) == Some(rule::exact_block(d)),
        parser::mihomo_item("+."@ + d) == Some(rule::suffix_block(d)),
        parser::mihomo_item("DOMAIN"@ + ","@ + d) == Some(rule::exact_block(d)),
        parser::mihomo_item("DOMAIN-SUFFIX"@ + ","@ + d) == Some(rule::suffix_block(d)),
        parser::mihomo_item("DOMAIN-KEYWORD"@ + ","@ + value) == Some(
            rule::plain_rule(
                ActionView::Block,
                RuleType::DomainKeyword,
                text::lowercase(text::trimmed(value)),
            ),
        ),
        parser::mihomo_item("DOMAIN-REGEX"@ + ","@ + value) == Some(
            rule::plain_rule(ActionView::Block, RuleType::Regex, text::trimmed(value)),
        ),
        parser::mihomo_item("IP-CIDR"@ + ","@ + value) is None,
        parser::mihomo_item("IP-CIDR6"@ + ","@ + value) is None,
{
    reveal_strlit("+.");
    reveal_strlit("DOMAIN");
    reveal_strlit("DOMAIN-SUFFIX");
    reveal_strlit("DOMAIN-KEYWORD");
    reveal_strlit("DOMAIN-REGEX");
    reveal_strlit("IP-CIDR");
    reveal_strlit("IP-CIDR6");
    lemma_domain_plain(d);
    assert(parser::domain_char(d[0]));
    if "+."@.is_prefix_of(d) {
        assert(d.subrange(0, 2)[0] == d[0]);
    }
    let below = "+."@ + d;
    assert(below.subrange(0, 2) =~= "+."@);
    assert(below.skip(2) =~= d);
    assert(text::ascii_upper("DOMAIN"@) =~= "DOMAIN"@);
    assert(text::ascii_upper("DOMAIN-SUFFIX"@) =~= "DOMAIN-SUFFIX"@);
    assert(text::ascii_upper("DOMAIN-KEYWORD"@) =~= "DOMAIN-KEYWORD"@);
    assert(text::ascii_upper("DOMAIN-REGEX"@) =~= "DOMAIN-REGEX"@);
    assert(text::ascii_upper("IP-CIDR"@) =~= "IP-CIDR"@);
    assert(text::ascii_upper("IP-CIDR6"@) =~= "IP-CIDR6"@);
    lemma_typed_item("DOMAIN"@, d);
    lemma_typed_item("DOMAIN-SUFFIX"@, d);
    lemma_typed_item("DOMAIN-KEYWORD"@, value);
    lemma_typed_item("DOMAIN-REGEX"@, value);
    lemma_typed_item("IP-CIDR"@, value);
    lemma_typed_item("IP-CIDR6"@, value);
    assert("DOMAIN-SUFFIX"@.len() != "DOMAIN"@.len());
}

} // verus!
