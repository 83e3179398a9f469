//! Readers for three kinds of rule lists.
//!
//! AdGuardHome and uBlock Origin:
//!
//! ```text
//! ||example.com^             block example.com and the names below it
//! ||example.com^$important   the same; what follows `$` is ignored
//! @@||example.com^           allow example.com and the names below it
//! /regex/                    block what the regular expression finds
//! @@/regex/                  allow what the regular expression finds
//! 127.0.0.1 example.com      block example.com, as in a hosts file
//! 0.0.0.0 example.com        the same
//! example.com                block example.com
//! ! comment
//! # comment
//! ```
//!
//! Mihomo (Clash-Meta):
//!
//! ```text
//! payload:
//!   - DOMAIN,example.com
//!   - DOMAIN-SUFFIX,example.com
//!   - DOMAIN-KEYWORD,keyword
//!   - DOMAIN-REGEX,pattern
//!   - +.example.com          short for DOMAIN-SUFFIX
//!   - example.com            short for DOMAIN
//! ```
//!
//! Domain lists: one name on a line, `*.` before it for the names below it too,
//! `#` before a comment.
use vstd::prelude::*;
use vstd::slice::slice_subrange;

use crate::rule;
use crate::rule::{ActionView, Rule, RuleAction, RuleType, RuleView};
use crate::text;
use crate::text::{
    find_char, next_line, spells, starts_with, strip_leading, strip_prefix, to_chars, to_lower,
    to_text, to_upper, trim, trim_end_of, trim_of, up_to, word,
};

verus! {

broadcast use vstd::string::group_string_axioms;

// ── Domain names ────────────────────────────────────────────────────────────

/// A character that a domain name may hold.
pub open spec fn domain_char(c: char) -> bool {
    ||| 'a' <= c <= 'z'
    ||| 'A' <= c <= 'Z'
    ||| '0' <= c <= '9'
    ||| c == '-'
    ||| c == '.'
}

/// One to 253 letters, digits, hyphens and dots, with neither a hyphen nor a dot
/// at either end.
pub open spec fn valid_domain(s: Seq<char>) -> bool {
    &&& 1 <= s.len() <= 253
    &&& forall|i: int| 0 <= i < s.len() ==> domain_char(#[trigger] s[i])
    &&& s[0] != '-' && s[0] != '.'
    &&& s.last() != '-' && s.last() != '.'
}

fn is_domain_char(c: char) -> (r: bool)
    ensures
        r == domain_char(c),
{
    ('a' <= c && c <= 'z') || ('A' <= c && c <= 'Z') || ('0' <= c && c <= '9') || c == '-' || c
        == '.'
}

/// `s` is a domain name.
pub fn is_valid_domain(s: &[char]) -> (r: bool)
    ensures
        r == valid_domain(s@),
{
    let n: usize = s.len();
    if n == 0 || n > 253 {
        return false;
    }
    let mut i: usize = 0;
    while i < n
        invariant
            i <= n == s@.len(),
            forall|j: int| 0 <= j < i ==> domain_char(#[trigger] s@[j]),
        decreases n - i,
    {
        if !is_domain_char(s[i]) {
            return false;
        }
        i += 1;
    }
    s[0] != '-' && s[n - 1] != '-' && s[0] != '.' && s[n - 1] != '.'
}

/// `s` is a domain name, after a leading `*.` was taken off.
pub fn is_valid_domain_or_wildcard(s: &[char]) -> (r: bool)
    ensures
        r == valid_domain(s@),
{
    is_valid_domain(s)
}

// ── AdGuardHome and uBlock Origin ───────────────────────────────────────────

/// `p` is a regular expression between two slashes.
pub open spec fn slashed(p: Seq<char>) -> bool {
    p.len() > 2 && p[0] == '/' && p.last() == '/'
}

/// What stands between the slashes.
pub open spec fn unslashed(p: Seq<char>) -> Seq<char> {
    p.subrange(1, p.len() - 1)
}

/// The name in a pattern, `rest` of which follows the two bars: up to `^` or `$`,
/// without dots and then white space at its end, and without `*.` before it.
pub open spec fn barred_domain(rest: Seq<char>) -> Seq<char> {
    text::without_leading(
        text::trimmed(text::trimmed_end_of(text::before(text::before(rest, '^'), '$'), '.')),
        "*."@,
    )
}

/// The name in a pattern without bars: up to `$`, trimmed, without dots at its end.
pub open spec fn bare_domain(p: Seq<char>) -> Seq<char> {
    text::trimmed_end_of(text::trimmed(text::before(p, '$')), '.')
}

/// The rule in a pattern, a line without its `@@`.
pub open spec fn adguard_pattern(p: Seq<char>, action: ActionView) -> Option<RuleView> {
    if slashed(p) {
        Some(rule::plain_rule(action, RuleType::Regex, unslashed(p)))
    } else if "||"@.is_prefix_of(p) {
        let domain = barred_domain(p.skip(2));
        if valid_domain(domain) {
            Some(rule::plain_rule(action, RuleType::DomainSuffix, text::lowercase(domain)))
        } else {
            None
        }
    } else {
        let domain = bare_domain(p);
        if valid_domain(domain) {
            Some(rule::plain_rule(action, RuleType::DomainExact, text::lowercase(domain)))
        } else {
            None
        }
    }
}

/// The line begins as one of a hosts file does that sends a name nowhere.
pub open spec fn hosts_line(line: Seq<char>) -> bool {
    ||| "127.0.0.1 "@.is_prefix_of(line)
    ||| "0.0.0.0 "@.is_prefix_of(line)
    ||| "::1 "@.is_prefix_of(line)
    ||| ":: "@.is_prefix_of(line)
}

/// The rule in a line that is neither blank nor a comment.
pub open spec fn adguard_line(line: Seq<char>) -> Option<RuleView> {
    if "@@"@.is_prefix_of(line) {
        adguard_pattern(line.skip(2), ActionView::Allow)
    } else if hosts_line(line) {
        let domain = text::first_word(text::behind(line, ' '));
        if valid_domain(domain) && domain != "localhost"@ {
            Some(rule::exact_block(domain))
        } else {
            None
        }
    } else {
        adguard_pattern(line, ActionView::Block)
    }
}

/// The rule in any line of a list.
pub open spec fn adguard_entry(line: Seq<char>) -> Option<RuleView> {
    let line = text::trimmed(line);
    if line.len() == 0 || line[0] == '!' || line[0] == '#' {
        None
    } else {
        adguard_line(line)
    }
}

/// The rules that `entry` finds in `lines`, in order.
pub open spec fn rules_in(
    lines: Seq<Seq<char>>,
    entry: spec_fn(Seq<char>) -> Option<RuleView>,
) -> Seq<RuleView>
    decreases lines.len(),
{
    if lines.len() == 0 {
        seq![]
    } else {
        match entry(lines[0]) {
            Some(r) => seq![r] + rules_in(lines.drop_first(), entry),
            None => rules_in(lines.drop_first(), entry),
        }
    }
}

/// The test of one line of an AdGuard list.
pub open spec fn adguard_entries() -> spec_fn(Seq<char>) -> Option<RuleView> {
    |line: Seq<char>| adguard_entry(line)
}

/// The rules in an AdGuard list.
pub open spec fn adguard_rules(content: Seq<char>) -> Seq<RuleView> {
    rules_in(text::lines_of(content), adguard_entries())
}

/// What a function found is what the specification says.
pub open spec fn found(r: Option<Rule>, said: Option<RuleView>) -> bool {
    match said {
        Some(v) => r matches Some(x) && x@ == v,
        None => r is None,
    }
}

/// Reads a pattern: a regular expression between slashes, a name behind two bars
/// with what lies below it, or a name alone.
pub fn parse_adguard_pattern(pattern: &[char], action: RuleAction) -> (r: Option<Rule>)
    ensures
        found(r, adguard_pattern(pattern@, action@)),
{
    proof {
        reveal_strlit("||");
        reveal_strlit("*.");
    }
    let n: usize = pattern.len();
    if n > 2 && pattern[0] == '/' && pattern[n - 1] == '/' {
        return Some(
            Rule {
                action,
                rule_type: RuleType::Regex,
                pattern: to_text(slice_subrange(pattern, 1, n - 1)),
                source: None,
            },
        );
    }
    if let Some(rest) = strip_prefix(pattern, "||") {
        let domain: &[char] = trim(trim_end_of(up_to(up_to(rest, '^'), '$'), '.'));
        let domain: &[char] = strip_leading(domain, "*.");
        if !is_valid_domain_or_wildcard(domain) {
            return None;
        }
        return Some(
            Rule {
                action,
                rule_type: RuleType::DomainSuffix,
                pattern: to_lower(domain),
                source: None,
            },
        );
    }
    let domain: &[char] = trim_end_of(trim(up_to(pattern, '$')), '.');
    if is_valid_domain(domain) {
        return Some(
            Rule {
                action,
                rule_type: RuleType::DomainExact,
                pattern: to_lower(domain),
                source: None,
            },
        );
    }
    None
}

/// Reads a line that is trimmed and neither empty nor a comment.
pub fn parse_adguard_line(line: &[char]) -> (r: Option<Rule>)
    ensures
        found(r, adguard_line(line@)),
{
    proof {
        reveal_strlit("@@");
    }
    if let Some(rest) = strip_prefix(line, "@@") {
        return parse_adguard_pattern(rest, RuleAction::Allow);
    }
    if starts_with(line, "127.0.0.1 ") || starts_with(line, "0.0.0.0 ") || starts_with(line, "::1 ")
        || starts_with(line, ":: ") {
        let k: usize = find_char(line, ' ');
        proof {
            lemma_hosts_space(line@);
        }
        let domain: &[char] = word(slice_subrange(line, k + 1, line.len()));
        if is_valid_domain(domain) && !spells(domain, "localhost") {
            return Some(Rule::block_exact(to_text(domain).as_str()));
        }
        return None;
    }
    parse_adguard_pattern(line, RuleAction::Block)
}

/// A line of a hosts file holds a space.
pub proof fn lemma_hosts_space(line: Seq<char>)
    requires
        hosts_line(line),
    ensures
        text::first_pos(line, ' ') < line.len(),
{
    reveal_strlit("127.0.0.1 ");
    reveal_strlit("0.0.0.0 ");
    reveal_strlit("::1 ");
    reveal_strlit(":: ");
    text::lemma_first_pos(line, ' ');
    if "127.0.0.1 "@.is_prefix_of(line) {
        assert(line.subrange(0, 10)[9] == line[9]);
    } else if "0.0.0.0 "@.is_prefix_of(line) {
        assert(line.subrange(0, 8)[7] == line[7]);
    } else if "::1 "@.is_prefix_of(line) {
        assert(line.subrange(0, 4)[3] == line[3]);
    } else {
        assert(line.subrange(0, 3)[2] == line[2]);
    }
}

/// Reads an AdGuard list.
pub fn parse_adguard(content: &str) -> (r: Vec<Rule>)
    ensures
        rule::rules_view(r@) == adguard_rules(content@),
{
    let chars: Vec<char> = to_chars(content);
    let mut rest: &[char] = chars.as_slice();
    let mut rules: Vec<Rule> = Vec::new();
    let ghost entry = adguard_entries();
    assert(rule::rules_view(rules@) + adguard_rules(content@) =~= adguard_rules(content@));
    while rest.len() > 0
        invariant
            entry == adguard_entries(),
            adguard_rules(content@) == rule::rules_view(rules@) + rules_in(
                text::lines_of(rest@),
                entry,
            ),
        decreases rest@.len(),
    {
        let (line, behind): (&[char], &[char]) = next_line(rest);
        let ghost done = rule::rules_view(rules@);
        let ghost later = rules_in(text::lines_of(behind@), entry);
        proof {
            assert(text::lines_of(rest@).drop_first() =~= text::lines_of(behind@));
        }
        let trimmed: &[char] = trim(line);
        if !(trimmed.len() == 0 || trimmed[0] == '!' || trimmed[0] == '#') {
            if let Some(r) = parse_adguard_line(trimmed) {
                proof {
                    assert(rule::rules_view(rules@.push(r)) =~= done.push(r@));
                    assert(done + (seq![r@] + later) =~= done.push(r@) + later);
                }
                rules.push(r);
            }
        }
        rest = behind;
    }
    assert(rule::rules_view(rules@) + Seq::<RuleView>::empty() =~= rule::rules_view(rules@));
    rules
}

// ── Mihomo (Clash-Meta) ─────────────────────────────────────────────────────

/// The rule of kind `kind`, in capital letters, for `value`.
pub open spec fn mihomo_typed(kind: Seq<char>, value: Seq<char>) -> Option<RuleView> {
    if kind == "DOMAIN"@ {
        if valid_domain(value) {
            Some(rule::exact_block(value))
        } else {
            None
        }
    } else if kind == "DOMAIN-SUFFIX"@ {
        if valid_domain(value) {
            Some(rule::suffix_block(value))
        } else {
            None
        }
    } else if kind == "DOMAIN-KEYWORD"@ {
        Some(
            rule::plain_rule(ActionView::Block, RuleType::DomainKeyword, text::lowercase(value)),
        )
    } else if kind == "DOMAIN-REGEX"@ {
        Some(rule::plain_rule(ActionView::Block, RuleType::Regex, value))
    } else {
        None
    }
}

/// The rule in an item: a name below `+.`, a kind and a value with a comma between
/// them, or a name.
pub open spec fn mihomo_item(item: Seq<char>) -> Option<RuleView> {
    if "+."@.is_prefix_of(item) {
        if valid_domain(item.skip(2)) {
            Some(rule::suffix_block(item.skip(2)))
        } else {
            None
        }
    } else if text::first_pos(item, ',') < item.len() {
        mihomo_typed(
            text::uppercase(text::trimmed(text::before(item, ','))),
            text::trimmed(text::behind(item, ',')),
        )
    } else if valid_domain(item) {
        Some(rule::exact_block(item))
    } else {
        None
    }
}

/// `item` without double and then single quotes around it.
pub open spec fn unquoted(item: Seq<char>) -> Seq<char> {
    text::trimmed_of(text::trimmed_of(item, '"'), '\'')
}

/// The line begins with a blank or a tab.
pub open spec fn indented(line: Seq<char>) -> bool {
    line.len() > 0 && (line[0] == ' ' || line[0] == '\t')
}

/// The item in `line`, where it stands in the payload and is one.
pub open spec fn payload_item(line: Seq<char>, in_payload: bool) -> Option<Seq<char>> {
    let line = text::trimmed(line);
    if in_payload && "- "@.is_prefix_of(line) {
        Some(unquoted(line.skip(2)))
    } else {
        None
    }
}

/// What follows `line` stands in the payload. It begins behind `payload:` and ends at a
/// new top-level key: a line that is not indented and no item. Blank lines and comments
/// leave it as it is.
pub open spec fn payload_after(line: Seq<char>, in_payload: bool) -> bool {
    let t = text::trimmed(line);
    if t.len() == 0 || t[0] == '#' {
        in_payload
    } else if "payload:"@.is_prefix_of(t) {
        true
    } else {
        in_payload && ("- "@.is_prefix_of(t) || indented(line))
    }
}

/// The rules in `lines`, which begin inside the payload or not.
pub open spec fn mihomo_lines(lines: Seq<Seq<char>>, in_payload: bool) -> Seq<RuleView>
    decreases lines.len(),
{
    if lines.len() == 0 {
        seq![]
    } else {
        let later = mihomo_lines(lines.drop_first(), payload_after(lines[0], in_payload));
        match payload_item(lines[0], in_payload) {
            Some(item) => match mihomo_item(item) {
                Some(r) => seq![r] + later,
                None => later,
            },
            None => later,
        }
    }
}

/// The rules in a Mihomo list.
pub open spec fn mihomo_rules(content: Seq<char>) -> Seq<RuleView> {
    mihomo_lines(text::lines_of(content), false)
}

/// The rule of kind `kind`, in capital letters, for `value`. Kinds of rules about
/// addresses, and unknown ones, give none.
pub fn mihomo_typed_rule(kind: &str, value: &[char]) -> (r: Option<Rule>)
    ensures
        found(r, mihomo_typed(kind@, value@)),
{
    let kind: Vec<char> = to_chars(kind);
    let kind: &[char] = kind.as_slice();
    if spells(kind, "DOMAIN") {
        if is_valid_domain(value) {
            Some(Rule::block_exact(to_text(value).as_str()))
        } else {
            None
        }
    } else if spells(kind, "DOMAIN-SUFFIX") {
        if is_valid_domain(value) {
            Some(Rule::block_suffix(to_text(value).as_str()))
        } else {
            None
        }
    } else if spells(kind, "DOMAIN-KEYWORD") {
        Some(
            Rule {
                action: RuleAction::Block,
                rule_type: RuleType::DomainKeyword,
                pattern: to_lower(value),
                source: None,
            },
        )
    } else if spells(kind, "DOMAIN-REGEX") {
        Some(
            Rule {
                action: RuleAction::Block,
                rule_type: RuleType::Regex,
                pattern: to_text(value),
                source: None,
            },
        )
    } else {
        None
    }
}

/// Reads an item of the payload.
pub fn parse_mihomo_item(item: &[char]) -> (r: Option<Rule>)
    ensures
        found(r, mihomo_item(item@)),
{
    proof {
        reveal_strlit("+.");
    }
    if let Some(rest) = strip_prefix(item, "+.") {
        if is_valid_domain(rest) {
            return Some(Rule::block_suffix(to_text(rest).as_str()));
        }
        return None;
    }
    let k: usize = find_char(item, ',');
    if k < item.len() {
        let kind: String = to_upper(trim(slice_subrange(item, 0, k)));
        let value: &[char] = trim(slice_subrange(item, k + 1, item.len()));
        return mihomo_typed_rule(kind.as_str(), value);
    }
    if is_valid_domain(item) {
        return Some(Rule::block_exact(to_text(item).as_str()));
    }
    None
}

/// The kinds of rules that Mihomo lists may hold, those about addresses included.
pub open spec fn known_kind(kind: Seq<char>) -> bool {
    ||| kind == "DOMAIN"@
    ||| kind == "DOMAIN-SUFFIX"@
    ||| kind == "DOMAIN-KEYWORD"@
    ||| kind == "DOMAIN-REGEX"@
    ||| kind == "IP-CIDR"@
    ||| kind == "IP-CIDR6"@
}

/// The kind in an item, in capital letters, where it names one that is not known.
pub open spec fn unknown_kind_of(item: Seq<char>) -> Option<Seq<char>> {
    let kind = text::uppercase(text::trimmed(text::before(item, ',')));
    if !"+."@.is_prefix_of(item) && text::first_pos(item, ',') < item.len() && !known_kind(kind) {
        Some(kind)
    } else {
        None
    }
}

/// The unknown kinds in `lines`, which begin inside the payload or not.
pub open spec fn unknown_kinds_in(lines: Seq<Seq<char>>, in_payload: bool) -> Seq<Seq<char>>
    decreases lines.len(),
{
    if lines.len() == 0 {
        seq![]
    } else {
        let later = unknown_kinds_in(lines.drop_first(), payload_after(lines[0], in_payload));
        match payload_item(lines[0], in_payload) {
            Some(item) => match unknown_kind_of(item) {
                Some(kind) => seq![kind] + later,
                None => later,
            },
            None => later,
        }
    }
}

/// The kind in an item of the payload, in capital letters, where it names one that is
/// not known. Such an item gives no rule.
pub fn unknown_kind(item: &[char]) -> (r: Option<String>)
    ensures
        match unknown_kind_of(item@) {
            Some(kind) => r matches Some(k) && k@ == kind,
            None => r is None,
        },
{
    if starts_with(item, "+.") {
        return None;
    }
    let k: usize = find_char(item, ',');
    if k == item.len() {
        return None;
    }
    let kind: String = to_upper(trim(slice_subrange(item, 0, k)));
    let chars: Vec<char> = to_chars(kind.as_str());
    let spelled: &[char] = chars.as_slice();
    if spells(spelled, "DOMAIN") || spells(spelled, "DOMAIN-SUFFIX") || spells(
        spelled,
        "DOMAIN-KEYWORD",
    ) || spells(spelled, "DOMAIN-REGEX") || spells(spelled, "IP-CIDR") || spells(
        spelled,
        "IP-CIDR6",
    ) {
        None
    } else {
        Some(kind)
    }
}

/// The item in a line, and whether what follows the line stands in the payload.
fn read_payload_line(line: &[char], in_payload: bool) -> (r: (Option<&[char]>, bool))
    ensures
        match payload_item(line@, in_payload) {
            Some(item) => r.0 matches Some(x) && x@ == item,
            None => r.0 is None,
        },
        r.1 == payload_after(line@, in_payload),
{
    proof {
        reveal_strlit("- ");
        reveal_strlit("payload:");
    }
    let is_indented: bool = line.len() > 0 && (line[0] == ' ' || line[0] == '\t');
    let line: &[char] = trim(line);
    proof {
        if "- "@.is_prefix_of(line@) {
            assert(line@.subrange(0, 2)[0] == line@[0]);
        }
        if "payload:"@.is_prefix_of(line@) {
            assert(line@.subrange(0, 8)[0] == line@[0]);
        }
    }
    if line.len() == 0 || line[0] == '#' {
        return (None, in_payload);
    }
    if starts_with(line, "payload:") {
        return (None, true);
    }
    if !in_payload {
        return (None, false);
    }
    match strip_prefix(line, "- ") {
        Some(item) => (Some(trim_of(trim_of(item, '"'), '\'')), true),
        None => (None, is_indented),
    }
}

/// Reads a Mihomo list. Every text can be read.
pub fn parse_mihomo(content: &str) -> (r: Result<Vec<Rule>, String>)
    ensures
        r matches Ok(rules) && rule::rules_view(rules@) == mihomo_rules(content@),
{
    let chars: Vec<char> = to_chars(content);
    let mut rest: &[char] = chars.as_slice();
    let mut rules: Vec<Rule> = Vec::new();
    let mut in_payload: bool = false;
    assert(rule::rules_view(rules@) + mihomo_rules(content@) =~= mihomo_rules(content@));
    while rest.len() > 0
        invariant
            mihomo_rules(content@) == rule::rules_view(rules@) + mihomo_lines(
                text::lines_of(rest@),
                in_payload,
            ),
        decreases rest@.len(),
    {
        let (line, behind): (&[char], &[char]) = next_line(rest);
        let ghost done = rule::rules_view(rules@);
        proof {
            assert(text::lines_of(rest@).drop_first() =~= text::lines_of(behind@));
        }
        let (item, still): (Option<&[char]>, bool) = read_payload_line(line, in_payload);
        if let Some(item) = item {
            if let Some(r) = parse_mihomo_item(item) {
                proof {
                    let later = mihomo_lines(text::lines_of(behind@), still);
                    assert(rule::rules_view(rules@.push(r)) =~= done.push(r@));
                    assert(done + (seq![r@] + later) =~= done.push(r@) + later);
                }
                rules.push(r);
            }
        }
        in_payload = still;
        rest = behind;
    }
    assert(rule::rules_view(rules@) + Seq::<RuleView>::empty() =~= rule::rules_view(rules@));
    Ok(rules)
}

/// What a run of texts says.
pub open spec fn texts_view(texts: Seq<String>) -> Seq<Seq<char>> {
    Seq::new(texts.len(), |i: int| texts[i]@)
}

/// The kinds of rules in a Mihomo list that are not known, in order.
pub fn unknown_kinds(content: &str) -> (r: Vec<String>)
    ensures
        texts_view(r@) == unknown_kinds_in(text::lines_of(content@), false),
{
    let chars: Vec<char> = to_chars(content);
    let mut rest: &[char] = chars.as_slice();
    let mut kinds: Vec<String> = Vec::new();
    let mut in_payload: bool = false;
    let ghost all = unknown_kinds_in(text::lines_of(content@), false);
    assert(texts_view(kinds@) + all =~= all);
    while rest.len() > 0
        invariant
            all == texts_view(kinds@) + unknown_kinds_in(text::lines_of(rest@), in_payload),
        decreases rest@.len(),
    {
        let (line, behind): (&[char], &[char]) = next_line(rest);
        let ghost done = texts_view(kinds@);
        proof {
            assert(text::lines_of(rest@).drop_first() =~= text::lines_of(behind@));
        }
        let (item, still): (Option<&[char]>, bool) = read_payload_line(line, in_payload);
        if let Some(item) = item {
            if let Some(kind) = unknown_kind(item) {
                proof {
                    let later = unknown_kinds_in(text::lines_of(behind@), still);
                    assert(texts_view(kinds@.push(kind)) =~= done.push(kind@));
                    assert(done + (seq![kind@] + later) =~= done.push(kind@) + later);
                }
                kinds.push(kind);
            }
        }
        in_payload = still;
        rest = behind;
    }
    assert(texts_view(kinds@) + Seq::<Seq<char>>::empty() =~= texts_view(kinds@));
    kinds
}

// ── Domain lists ────────────────────────────────────────────────────────────

/// The rule in any line of a domain list.
pub open spec fn domain_entry(line: Seq<char>) -> Option<RuleView> {
    let line = text::trimmed(line);
    if line.len() == 0 || line[0] == '#' {
        None
    } else {
        let line = text::trimmed(text::before(line, '#'));
        if "*."@.is_prefix_of(line) {
            if valid_domain(line.skip(2)) {
                Some(rule::suffix_block(line.skip(2)))
            } else {
                None
            }
        } else if valid_domain(line) {
            Some(rule::exact_block(line))
        } else {
            None
        }
    }
}

/// The test of one line of a domain list.
pub open spec fn domain_entries() -> spec_fn(Seq<char>) -> Option<RuleView> {
    |line: Seq<char>| domain_entry(line)
}

/// The rules in a domain list.
pub open spec fn domain_list_rules(content: Seq<char>) -> Seq<RuleView> {
    rules_in(text::lines_of(content), domain_entries())
}

fn parse_domain_line(line: &[char]) -> (r: Option<Rule>)
    ensures
        found(r, domain_entry(line@)),
{
    proof {
        reveal_strlit("*.");
    }
    let line: &[char] = trim(line);
    if line.len() == 0 || line[0] == '#' {
        return None;
    }
    let line: &[char] = trim(up_to(line, '#'));
    if let Some(domain) = strip_prefix(line, "*.") {
        if is_valid_domain(domain) {
            return Some(Rule::block_suffix(to_text(domain).as_str()));
        }
        return None;
    }
    if is_valid_domain(line) {
        return Some(Rule::block_exact(to_text(line).as_str()));
    }
    None
}

/// Reads a domain list.
pub fn parse_domain_list(content: &str) -> (r: Vec<Rule>)
    ensures
        rule::rules_view(r@) == domain_list_rules(content@),
{
    let chars: Vec<char> = to_chars(content);
    let mut rest: &[char] = chars.as_slice();
    let mut rules: Vec<Rule> = Vec::new();
    let ghost entry = domain_entries();
    assert(rule::rules_view(rules@) + domain_list_rules(content@) =~= domain_list_rules(content@));
    while rest.len() > 0
        invariant
            entry == domain_entries(),
            domain_list_rules(content@) == rule::rules_view(rules@) + rules_in(
                text::lines_of(rest@),
                entry,
            ),
        decreases rest@.len(),
    {
        let (line, behind): (&[char], &[char]) = next_line(rest);
        let ghost done = rule::rules_view(rules@);
        let ghost later = rules_in(text::lines_of(behind@), entry);
        proof {
            assert(text::lines_of(rest@).drop_first() =~= text::lines_of(behind@));
        }
        if let Some(r) = parse_domain_line(line) {
            proof {
                assert(rule::rules_view(rules@.push(r)) =~= done.push(r@));
                assert(done + (seq![r@] + later) =~= done.push(r@) + later);
            }
            rules.push(r);
        }
        rest = behind;
    }
    assert(rule::rules_view(rules@) + Seq::<RuleView>::empty() =~= rule::rules_view(rules@));
    rules
}

} // verus!
