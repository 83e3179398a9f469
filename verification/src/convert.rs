//! From a rule list to rules: which kind of list it is, and what it holds.
use vstd::prelude::*;

use crate::parser;
use crate::parser::{parse_adguard, parse_domain_list, parse_mihomo};
use crate::rule;
use crate::rule::{Rule, RuleView};
use crate::text;
use crate::text::{contains, same_text, to_chars};

verus! {

broadcast use vstd::string::group_string_axioms;

/// The kinds of rule lists.
#[derive(Clone, Copy, Debug, PartialEq, Eq, Structural)]
pub enum InputFormat {
    Adguard,
    Mihomo,
    Domains,
}

/// The kind of a list whose file has the extension `ext`, in lower case: YAML is
/// Mihomo's; else the content decides.
pub open spec fn format_of(ext: Seq<char>, content: Seq<char>) -> InputFormat {
    if ext == "yaml"@ || ext == "yml"@ {
        InputFormat::Mihomo
    } else if text::occurs("||"@, content) || text::occurs("@@"@, content) {
        InputFormat::Adguard
    } else if text::occurs("payload:"@, content) {
        InputFormat::Mihomo
    } else {
        InputFormat::Domains
    }
}

/// The rules in a list of the given kind.
pub open spec fn rules_of(format: InputFormat, content: Seq<char>) -> Seq<RuleView> {
    match format {
        InputFormat::Adguard => parser::adguard_rules(content),
        InputFormat::Mihomo => parser::mihomo_rules(content),
        InputFormat::Domains => parser::domain_list_rules(content),
    }
}

/// `rules`, each marked as coming from `source`.
pub open spec fn from_source(rules: Seq<RuleView>, source: Seq<char>) -> Seq<RuleView> {
    Seq::new(rules.len(), |i: int| RuleView { source: Some(source), ..rules[i] })
}

/// The kind of a list whose file has the extension `ext`, in lower case.
pub fn format_for_extension(ext: &str, content: &str) -> (r: InputFormat)
    ensures
        r == format_of(ext@, content@),
{
    if same_text(ext, "yaml") || same_text(ext, "yml") {
        return InputFormat::Mihomo;
    }
    let chars: Vec<char> = to_chars(content);
    let chars: &[char] = chars.as_slice();
    if contains(chars, to_chars("||").as_slice()) || contains(chars, to_chars("@@").as_slice()) {
        InputFormat::Adguard
    } else if contains(chars, to_chars("payload:").as_slice()) {
        InputFormat::Mihomo
    } else {
        InputFormat::Domains
    }
}

/// The kind of a list whose file has the extension `ext`, in any case; it is empty
/// for a file without one.
pub fn detect_format(ext: &str, content: &str) -> (r: InputFormat)
    ensures
        r == format_of(text::lowercase(ext@), content@),
{
    format_for_extension(ext.to_lowercase().as_str(), content)
}

/// Reads a list of the given kind.
pub fn parse_rules(format: InputFormat, content: &str) -> (r: Result<Vec<Rule>, String>)
    ensures
        r matches Ok(rules) && rule::rules_view(rules@) == rules_of(format, content@),
{
    match format {
        InputFormat::Adguard => Ok(parse_adguard(content)),
        InputFormat::Mihomo => parse_mihomo(content),
        InputFormat::Domains => Ok(parse_domain_list(content)),
    }
}

/// Marks each rule as coming from `source`.
pub fn mark_source(rules: Vec<Rule>, source: &str) -> (r: Vec<Rule>)
    ensures
        rule::rules_view(r@) == from_source(rule::rules_view(rules@), source@),
{
    let mut out: Vec<Rule> = rules;
    let ghost given = out@;
    let mut i: usize = 0;
    while i < out.len()
        invariant
            i <= out@.len() == given.len(),
            forall|j: int|
                0 <= j < i ==> (#[trigger] out@[j])@ == (RuleView {
                    source: Some(source@),
                    ..given[j]@
                }),
            forall|j: int| i <= j < given.len() ==> #[trigger] out@[j] == given[j],
        decreases out.len() - i,
    {
        out[i].source = Some(source.to_owned());
        i += 1;
    }
    assert(rule::rules_view(out@) =~= from_source(rule::rules_view(given), source@));
    out
}

/// The rules in one input: of the kind in `hint`, else of the kind that its
/// extension and its content show, each marked with the name of the file.
pub fn convert_input(hint: Option<InputFormat>, ext: &str, content: &str, file_name: &str) -> (r:
    Result<Vec<Rule>, String>)
    ensures
        r matches Ok(rules) && rule::rules_view(rules@) == from_source(
            rules_of(
                match hint {
                    Some(format) => format,
                    None => format_of(text::lowercase(ext@), content@),
                },
                content@,
            ),
            file_name@,
        ),
{
    let format: InputFormat = match hint {
        Some(format) => format,
        None => detect_format(ext, content),
    };
    match parse_rules(format, content) {
        Ok(rules) => Ok(mark_source(rules, file_name)),
        Err(e) => Err(e),
    }
}

/// What kind of list an extension and a content show. Bars and `@@` are AdGuard's, and
/// come before `payload:`, which is Mihomo's; the extensions of YAML come before both.
pub proof fn law_format(ext: Seq<char>, content: Seq<char>)
    ensures
        ({
            let yaml = ext == seq!['y', 'a', 'm', 'l'] || ext == seq!['y', 'm', 'l'];
            let barred = text::occurs(seq!['|', '|'], content) || text::occurs(
                seq!['@', '@'],
                content,
            );
            let payload = text::occurs(seq!['p', 'a', 'y', 'l', 'o', 'a', 'd', ':'], content);
            &&& yaml ==> format_of(ext, content) == InputFormat::Mihomo
            &&& !yaml && barred ==> format_of(ext, content) == InputFormat::Adguard
            &&& !yaml && !barred && payload ==> format_of(ext, content) == InputFormat::Mihomo
            &&& !yaml && !barred && !payload ==> format_of(ext, content) == InputFormat::Domains
        }),
{
    reveal_strlit("yaml");
    reveal_strlit("yml");
    reveal_strlit("||");
    reveal_strlit("@@");
    reveal_strlit("payload:");
    assert("yaml"@ =~= seq!['y', 'a', 'm', 'l']);
    assert("yml"@ =~= seq!['y', 'm', 'l']);
    assert("||"@ =~= seq!['|', '|']);
    assert("@@"@ =~= seq!['@', '@']);
    assert("payload:"@ =~= seq!['p', 'a', 'y', 'l', 'o', 'a', 'd', ':']);
}

/// A list is read by the reader of its kind.
pub proof fn law_rules_of(content: Seq<char>)
    ensures
        rules_of(InputFormat::Adguard, content) == parser::adguard_rules(content),
        rules_of(InputFormat::Mihomo, content) == parser::mihomo_rules(content),
        rules_of(InputFormat::Domains, content) == parser::domain_list_rules(content),
{
}

/// Marking rules with a source changes nothing else about them, neither their number nor
/// their order, and replaces a source that was there.
pub proof fn law_marked(rules: Seq<RuleView>, source: Seq<char>)
    ensures
        from_source(rules, source).len() == rules.len(),
        forall|i: int|
            0 <= i < rules.len() ==> {
                let r = #[trigger] from_source(rules, source)[i];
                &&& r.source == Some(source)
                &&& r.pattern == rules[i].pattern
                &&& r.rule_type == rules[i].rule_type
                &&& r.action == rules[i].action
            },
{
}

} // verus!
