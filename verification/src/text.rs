//! Text as sequences of characters.
//!
//! Rule lists and domain names are taken apart character by character. The
//! specification functions speak of `Seq<char>`, the view of `str` and `String`;
//! the executable functions work on slices of `char`.
use vstd::prelude::*;
use vstd::slice::slice_subrange;
use vstd::utf8::*;

verus! {

broadcast use vstd::string::group_string_axioms;

// ── Letter case ─────────────────────────────────────────────────────────────

/// The lower case of one ASCII letter; any other character stays as it is.
pub open spec fn ascii_lower_char(c: char) -> char {
    if 'A' <= c <= 'Z' {
        (c as u8 + 32) as char
    } else {
        c
    }
}

/// The upper case of one ASCII letter; any other character stays as it is.
pub open spec fn ascii_upper_char(c: char) -> char {
    if 'a' <= c <= 'z' {
        (c as u8 - 32) as char
    } else {
        c
    }
}

/// `s` with every ASCII letter in lower case.
pub open spec fn ascii_lower(s: Seq<char>) -> Seq<char> {
    Seq::new(s.len(), |i: int| ascii_lower_char(s[i]))
}

/// `s` with every ASCII letter in upper case.
pub open spec fn ascii_upper(s: Seq<char>) -> Seq<char> {
    Seq::new(s.len(), |i: int| ascii_upper_char(s[i]))
}

/// What `str::to_lowercase` makes of a text that is not all ASCII.
pub uninterp spec fn unicode_lowercase(s: Seq<char>) -> Seq<char>;

/// What `str::to_uppercase` makes of a text that is not all ASCII.
pub uninterp spec fn unicode_uppercase(s: Seq<char>) -> Seq<char>;

/// The lower case of a text.
pub open spec fn lowercase(s: Seq<char>) -> Seq<char> {
    if is_ascii_chars(s) {
        ascii_lower(s)
    } else {
        unicode_lowercase(s)
    }
}

/// The upper case of a text.
pub open spec fn uppercase(s: Seq<char>) -> Seq<char> {
    if is_ascii_chars(s) {
        ascii_upper(s)
    } else {
        unicode_uppercase(s)
    }
}

/// `str::to_lowercase`: ASCII letters go to their lower case; of other text, only
/// that the result is a function of the text.
pub assume_specification[ str::to_lowercase ](s: &str) -> (r: String)
    ensures
        is_ascii_chars(s@) ==> r@ == ascii_lower(s@),
        !is_ascii_chars(s@) ==> r@ == unicode_lowercase(s@),
;

/// `str::to_uppercase`: ASCII letters go to their upper case; of other text, only
/// that the result is a function of the text.
pub assume_specification[ str::to_uppercase ](s: &str) -> (r: String)
    ensures
        is_ascii_chars(s@) ==> r@ == ascii_upper(s@),
        !is_ascii_chars(s@) ==> r@ == unicode_uppercase(s@),
;

/// `String::push` appends one character.
pub assume_specification[ String::push ](s: &mut String, c: char)
    ensures
        final(s)@ == old(s)@.push(c),
;

// ── Trimming ────────────────────────────────────────────────────────────────

/// The characters with Unicode's White_Space property.
pub open spec fn white_space(c: char) -> bool {
    ||| '\u{9}' <= c <= '\u{d}'
    ||| c == ' '
    ||| c == '\u{85}'
    ||| c == '\u{a0}'
    ||| c == '\u{1680}'
    ||| '\u{2000}' <= c <= '\u{200a}'
    ||| c == '\u{2028}'
    ||| c == '\u{2029}'
    ||| c == '\u{202f}'
    ||| c == '\u{205f}'
    ||| c == '\u{3000}'
}

/// The test for white space.
pub open spec fn is_white() -> spec_fn(char) -> bool {
    |c: char| white_space(c)
}

/// The test for one character.
pub open spec fn is_char(c: char) -> spec_fn(char) -> bool {
    |x: char| x == c
}

/// `s` without the characters at its start that satisfy `p`.
pub open spec fn skip_leading(s: Seq<char>, p: spec_fn(char) -> bool) -> Seq<char>
    decreases s.len(),
{
    if s.len() > 0 && p(s[0]) {
        skip_leading(s.drop_first(), p)
    } else {
        s
    }
}

/// `s` without the characters at its end that satisfy `p`.
pub open spec fn skip_trailing(s: Seq<char>, p: spec_fn(char) -> bool) -> Seq<char>
    decreases s.len(),
{
    if s.len() > 0 && p(s.last()) {
        skip_trailing(s.drop_last(), p)
    } else {
        s
    }
}

/// `s` without white space at either end.
pub open spec fn trimmed(s: Seq<char>) -> Seq<char> {
    skip_trailing(skip_leading(s, is_white()), is_white())
}

/// `s` without the characters `c` at its end.
pub open spec fn trimmed_end_of(s: Seq<char>, c: char) -> Seq<char> {
    skip_trailing(s, is_char(c))
}

/// `s` without the characters `c` at either end.
pub open spec fn trimmed_of(s: Seq<char>, c: char) -> Seq<char> {
    skip_trailing(skip_leading(s, is_char(c)), is_char(c))
}

/// `s` without the copies of `t` at its start.
pub open spec fn without_leading(s: Seq<char>, t: Seq<char>) -> Seq<char>
    decreases s.len(),
{
    if t.len() > 0 && t.is_prefix_of(s) {
        without_leading(s.skip(t.len() as int), t)
    } else {
        s
    }
}

// ── Taking apart and putting together ───────────────────────────────────────

/// The position of the first `c` in `s`, or the length of `s` where there is none.
pub open spec fn first_pos(s: Seq<char>, c: char) -> int
    decreases s.len(),
{
    if s.len() == 0 || s[0] == c {
        0
    } else {
        1 + first_pos(s.drop_first(), c)
    }
}

/// The part of `s` before the first `c`, or all of `s`.
pub open spec fn before(s: Seq<char>, c: char) -> Seq<char> {
    s.take(first_pos(s, c))
}

/// The part of `s` behind the first `c`, where `s` holds one.
pub open spec fn behind(s: Seq<char>, c: char) -> Seq<char> {
    s.skip(first_pos(s, c) + 1)
}

/// The parts of `s` between its characters `c`: one more than there are of them.
pub open spec fn pieces(s: Seq<char>, c: char) -> Seq<Seq<char>>
    decreases s.len(),
{
    let k = first_pos(s, c);
    if 0 <= k < s.len() {
        seq![s.take(k)] + pieces(s.skip(k + 1), c)
    } else {
        seq![s]
    }
}

/// The texts in `parts`, with one `c` between each and the next.
pub open spec fn joined(parts: Seq<Seq<char>>, c: char) -> Seq<char>
    decreases parts.len(),
{
    if parts.len() == 0 {
        seq![]
    } else if parts.len() == 1 {
        parts[0]
    } else {
        parts[0] + seq![c] + joined(parts.drop_first(), c)
    }
}

/// `s` without a carriage return at its end.
pub open spec fn without_return(s: Seq<char>) -> Seq<char> {
    if s.len() > 0 && s.last() == '\r' {
        s.drop_last()
    } else {
        s
    }
}

/// The lines of `s`. A line ends in a line feed, which a carriage return may
/// precede; the last line may lack it.
pub open spec fn lines_of(s: Seq<char>) -> Seq<Seq<char>>
    decreases s.len(),
{
    if s.len() == 0 {
        seq![]
    } else {
        let k = first_pos(s, '\n');
        if 0 <= k < s.len() {
            seq![without_return(s.take(k))] + lines_of(s.skip(k + 1))
        } else {
            seq![s]
        }
    }
}

/// The first run of characters in `s` that are not white space; empty where there
/// is none.
pub open spec fn first_word(s: Seq<char>) -> Seq<char> {
    leading_word(skip_leading(s, is_white()))
}

/// The characters of `s` before its first white space.
pub open spec fn leading_word(s: Seq<char>) -> Seq<char>
    decreases s.len(),
{
    if s.len() == 0 || white_space(s[0]) {
        seq![]
    } else {
        seq![s[0]] + leading_word(s.drop_first())
    }
}

/// `t` occurs in `s`.
pub open spec fn occurs(t: Seq<char>, s: Seq<char>) -> bool {
    exists|i: int|
        0 <= i <= s.len() - t.len() && #[trigger] s.subrange(i, i + t.len()) == t
}

// ── Facts about positions and pieces ────────────────────────────────────────

pub proof fn lemma_first_pos(s: Seq<char>, c: char)
    ensures
        0 <= first_pos(s, c) <= s.len(),
        first_pos(s, c) < s.len() ==> s[first_pos(s, c)] == c,
        forall|j: int| 0 <= j < first_pos(s, c) ==> s[j] != c,
    decreases s.len(),
{
    if s.len() == 0 || s[0] == c {
    } else {
        let rest = s.drop_first();
        lemma_first_pos(rest, c);
        assert forall|j: int| 0 <= j < first_pos(s, c) implies s[j] != c by {
            if j > 0 {
                assert(s[j] == rest[j - 1]);
            }
        }
    }
}

pub proof fn lemma_first_pos_is(s: Seq<char>, c: char, k: int)
    requires
        0 <= k <= s.len(),
        forall|j: int| 0 <= j < k ==> s[j] != c,
        k < s.len() ==> s[k] == c,
    ensures
        first_pos(s, c) == k,
{
    lemma_first_pos(s, c);
    let p = first_pos(s, c);
    if p < k {
        assert(s[p] != c);
    } else if k < p {
        assert(s[k] != c);
    }
}

pub proof fn lemma_joined_push(parts: Seq<Seq<char>>, c: char, last: Seq<char>)
    ensures
        joined(parts.push(last), c) == (if parts.len() == 0 {
            last
        } else {
            joined(parts, c) + seq![c] + last
        }),
    decreases parts.len(),
{
    if parts.len() > 0 {
        let rest = parts.drop_first();
        assert(parts.push(last).drop_first() =~= rest.push(last));
        lemma_joined_push(rest, c, last);
        if parts.len() == 1 {
            assert(joined(parts.push(last), c) =~= parts[0] + seq![c] + last);
        } else {
            assert(joined(parts.push(last), c) =~= joined(parts, c) + seq![c] + last);
        }
    }
}

/// Joining the pieces of a text gives the text.
pub proof fn lemma_joined_pieces(s: Seq<char>, c: char)
    ensures
        joined(pieces(s, c), c) == s,
        pieces(s, c).len() > 0,
    decreases s.len(),
{
    lemma_first_pos(s, c);
    let k = first_pos(s, c);
    if k < s.len() {
        let rest = s.skip(k + 1);
        lemma_joined_pieces(rest, c);
        assert(pieces(s, c).drop_first() =~= pieces(rest, c));
        assert(s =~= s.take(k) + seq![c] + rest);
    }
}

/// The pieces of joined texts are the texts, where there is one at least and none
/// of them holds the character between them.
pub proof fn lemma_pieces_joined(parts: Seq<Seq<char>>, c: char)
    requires
        parts.len() > 0,
        forall|i: int| 0 <= i < parts.len() ==> !(#[trigger] parts[i]).contains(c),
    ensures
        pieces(joined(parts, c), c) == parts,
    decreases parts.len(),
{
    let s = joined(parts, c);
    let head = parts[0];
    let k = head.len() as int;
    assert forall|j: int| 0 <= j < k implies s[j] != c by {
        assert(head.contains(head[j]));
    }
    lemma_first_pos_is(s, c, k);
    if parts.len() == 1 {
        assert(parts =~= seq![s]);
    } else {
        let rest = parts.drop_first();
        assert forall|i: int| 0 <= i < rest.len() implies !(#[trigger] rest[i]).contains(c) by {
            assert(rest[i] == parts[i + 1]);
        }
        lemma_pieces_joined(rest, c);
        assert(s.take(k) =~= head);
        assert(s.skip(k + 1) =~= joined(rest, c));
        assert(seq![head] + rest =~= parts);
    }
}

/// The number of characters in all of `parts`.
pub open spec fn total_len(parts: Seq<Seq<char>>) -> int
    decreases parts.len(),
{
    if parts.len() == 0 {
        0
    } else {
        parts[0].len() + total_len(parts.drop_first())
    }
}

/// The pieces of a text and the characters between them make up its length.
pub proof fn lemma_pieces_total(s: Seq<char>, c: char)
    ensures
        total_len(pieces(s, c)) + pieces(s, c).len() == s.len() + 1,
    decreases s.len(),
{
    lemma_first_pos(s, c);
    let k = first_pos(s, c);
    if k < s.len() {
        lemma_pieces_total(s.skip(k + 1), c);
        assert(pieces(s, c).drop_first() =~= pieces(s.skip(k + 1), c));
    } else {
        reveal_with_fuel(total_len, 2);
        assert(pieces(s, c).drop_first() =~= seq![]);
    }
}

/// Parts that are not empty have a character each.
pub proof fn lemma_sum_at_least(parts: Seq<Seq<char>>)
    requires
        forall|i: int| 0 <= i < parts.len() ==> 1 <= (#[trigger] parts[i]).len(),
    ensures
        total_len(parts) >= parts.len(),
    decreases parts.len(),
{
    if parts.len() > 0 {
        let rest = parts.drop_first();
        assert forall|i: int| 0 <= i < rest.len() implies 1 <= (#[trigger] rest[i]).len() by {
            assert(rest[i] == parts[i + 1]);
        }
        lemma_sum_at_least(rest);
    }
}

/// Each piece of a text occurs in it.
pub proof fn lemma_pieces_of(s: Seq<char>, c: char, i: int)
    requires
        0 <= i < pieces(s, c).len(),
    ensures
        occurs(pieces(s, c)[i], s),
    decreases s.len(),
{
    lemma_first_pos(s, c);
    let k = first_pos(s, c);
    let piece = pieces(s, c)[i];
    if k < s.len() {
        if i == 0 {
            assert(s.subrange(0, 0int + piece.len()) == piece);
        } else {
            let rest = s.skip(k + 1);
            assert(piece == pieces(rest, c)[i - 1]);
            lemma_pieces_of(rest, c, i - 1);
            let a = choose|a: int|
                0 <= a <= rest.len() - piece.len() && #[trigger] rest.subrange(a, a + piece.len())
                    == piece;
            assert(s.subrange(k + 1 + a, k + 1 + a + piece.len()) =~= rest.subrange(
                a,
                a + piece.len(),
            ));
        }
    } else {
        assert(s.subrange(0, 0int + piece.len()) =~= piece);
    }
}

/// No piece of a text holds the character between the pieces.
pub proof fn lemma_pieces_without(s: Seq<char>, c: char, i: int)
    requires
        0 <= i < pieces(s, c).len(),
    ensures
        !pieces(s, c)[i].contains(c),
    decreases s.len(),
{
    lemma_first_pos(s, c);
    let k = first_pos(s, c);
    if k < s.len() && i > 0 {
        assert(pieces(s, c)[i] == pieces(s.skip(k + 1), c)[i - 1]);
        lemma_pieces_without(s.skip(k + 1), c, i - 1);
    }
}

/// Joined texts end as the last of them does, where that is not empty.
pub proof fn lemma_joined_last(parts: Seq<Seq<char>>, c: char)
    requires
        parts.len() > 0,
        parts.last().len() > 0,
    ensures
        joined(parts, c).len() > 0,
        joined(parts, c).last() == parts.last().last(),
    decreases parts.len(),
{
    if parts.len() > 1 {
        lemma_joined_last(parts.drop_first(), c);
    }
}

/// What holds of every character of some texts, and of the one between them, holds of
/// every character of the joined texts.
pub proof fn lemma_joined_all(parts: Seq<Seq<char>>, c: char, p: spec_fn(char) -> bool)
    requires
        p(c),
        forall|i: int, j: int|
            0 <= i < parts.len() && 0 <= j < parts[i].len() ==> p(#[trigger] parts[i][j]),
    ensures
        forall|j: int| 0 <= j < joined(parts, c).len() ==> p(#[trigger] joined(parts, c)[j]),
    decreases parts.len(),
{
    if parts.len() == 1 {
        assert(joined(parts, c) == parts[0]);
    } else if parts.len() > 1 {
        let rest = parts.drop_first();
        assert forall|i: int, j: int| 0 <= i < rest.len() && 0 <= j < rest[i].len() implies p(
            #[trigger] rest[i][j],
        ) by {
            assert(p(parts[i + 1][j]));
        }
        lemma_joined_all(rest, c, p);
        let s = joined(parts, c);
        let n = parts[0].len() as int;
        assert forall|j: int| 0 <= j < s.len() implies p(#[trigger] s[j]) by {
            if j < n {
                assert(s[j] == parts[0][j]);
            } else if j > n {
                assert(s[j] == joined(rest, c)[j - n - 1]);
            }
        }
    }
}

/// What is left behind leading characters is the end of the text, and its first
/// character is none of them.
pub proof fn lemma_skip_leading(s: Seq<char>, p: spec_fn(char) -> bool)
    ensures
        skip_leading(s, p).is_suffix_of(s),
        skip_leading(s, p).len() > 0 ==> !p(skip_leading(s, p)[0]),
    decreases s.len(),
{
    if s.len() > 0 && p(s[0]) {
        lemma_skip_leading(s.drop_first(), p);
        let r = skip_leading(s, p);
        assert(s.drop_first().subrange(s.len() - 1 - r.len(), s.len() - 1) =~= s.subrange(
            s.len() - r.len(),
            s.len() as int,
        ));
    } else {
        assert(s.subrange(0, s.len() as int) =~= s);
    }
}

/// What is left before trailing characters is the start of the text, and its last
/// character is none of them.
pub proof fn lemma_skip_trailing(s: Seq<char>, p: spec_fn(char) -> bool)
    ensures
        skip_trailing(s, p).is_prefix_of(s),
        skip_trailing(s, p).len() > 0 ==> !p(skip_trailing(s, p).last()),
    decreases s.len(),
{
    if s.len() > 0 && p(s.last()) {
        lemma_skip_trailing(s.drop_last(), p);
        let r = skip_trailing(s, p);
        assert(s.drop_last().subrange(0, r.len() as int) =~= s.subrange(0, r.len() as int));
    } else {
        assert(s.subrange(0, s.len() as int) =~= s);
    }
}

/// A trimmed text has no white space at either end.
pub proof fn lemma_trimmed(s: Seq<char>)
    ensures
        trimmed(s).len() > 0 ==> !white_space(trimmed(s)[0]) && !white_space(trimmed(s).last()),
        trimmed(s).len() <= s.len(),
{
    let u = skip_leading(s, is_white());
    lemma_skip_leading(s, is_white());
    lemma_skip_trailing(u, is_white());
    let r = trimmed(s);
    if r.len() > 0 {
        assert(u.subrange(0, r.len() as int)[0] == u[0]);
    }
}

/// A text without white space at either end stays as it is.
pub proof fn lemma_trimmed_same(s: Seq<char>)
    requires
        s.len() > 0 ==> !white_space(s[0]) && !white_space(s.last()),
    ensures
        trimmed(s) == s,
{
}

// ── The executable side ─────────────────────────────────────────────────────

/// The characters of a text.
pub fn to_chars(s: &str) -> (r: Vec<char>)
    ensures
        r@ == s@,
{
    let mut v: Vec<char> = Vec::new();
    for c in it: s.chars()
        invariant
            it.seq() == s@,
            v@ == s@.take(it.index() as int),
    {
        v.push(c);
    }
    v
}

/// The text that `s` spells.
pub fn to_text(s: &[char]) -> (r: String)
    ensures
        r@ == s@,
{
    let mut out = String::new();
    let mut i: usize = 0;
    while i < s.len()
        invariant
            i <= s.len(),
            out@ == s@.take(i as int),
        decreases s.len() - i,
    {
        out.push(s[i]);
        i += 1;
        assert(s@.take(i as int) =~= s@.take(i - 1).push(s@[i - 1]));
    }
    assert(s@.take(i as int) =~= s@);
    out
}

/// The lower case of `s`.
pub fn to_lower(s: &[char]) -> (r: String)
    ensures
        r@ == lowercase(s@),
{
    to_text(s).as_str().to_lowercase()
}

/// The upper case of `s`.
pub fn to_upper(s: &[char]) -> (r: String)
    ensures
        r@ == uppercase(s@),
{
    to_text(s).as_str().to_uppercase()
}

pub fn is_white_space(c: char) -> (r: bool)
    ensures
        r == white_space(c),
{
    ('\u{9}' <= c && c <= '\u{d}') || c == ' ' || c == '\u{85}' || c == '\u{a0}' || c == '\u{1680}'
        || ('\u{2000}' <= c && c <= '\u{200a}') || c == '\u{2028}' || c == '\u{2029}'
        || c == '\u{202f}' || c == '\u{205f}' || c == '\u{3000}'
}

/// `str::trim`.
pub fn trim(s: &[char]) -> (r: &[char])
    ensures
        r@ == trimmed(s@),
{
    let ghost p = is_white();
    let mut a: usize = 0;
    assert(s@.skip(0) =~= s@);
    while a < s.len() && is_white_space(s[a])
        invariant
            a <= s.len(),
            p == is_white(),
            skip_leading(s@, p) == skip_leading(s@.skip(a as int), p),
        decreases s.len() - a,
    {
        assert(s@.skip(a as int).drop_first() =~= s@.skip(a + 1));
        a += 1;
    }
    let mut b: usize = s.len();
    let ghost core = s@.skip(a as int);
    while b > a && is_white_space(s[b - 1])
        invariant
            a <= b <= s.len(),
            core == s@.skip(a as int),
            p == is_white(),
            skip_trailing(core, p) == skip_trailing(s@.subrange(a as int, b as int), p),
        decreases b - a,
    {
        assert(s@.subrange(a as int, b as int).drop_last() =~= s@.subrange(a as int, b - 1));
        b -= 1;
    }
    slice_subrange(s, a, b)
}

/// `str::trim_end_matches` with one character.
pub fn trim_end_of(s: &[char], c: char) -> (r: &[char])
    ensures
        r@ == trimmed_end_of(s@, c),
{
    let ghost p = is_char(c);
    let mut b: usize = s.len();
    assert(s@.take(s@.len() as int) =~= s@);
    while b > 0 && s[b - 1] == c
        invariant
            b <= s.len(),
            p == is_char(c),
            skip_trailing(s@, p) == skip_trailing(s@.take(b as int), p),
        decreases b,
    {
        assert(s@.take(b as int).drop_last() =~= s@.take(b - 1));
        b -= 1;
    }
    slice_subrange(s, 0, b)
}

/// `str::trim_matches` with one character.
pub fn trim_of(s: &[char], c: char) -> (r: &[char])
    ensures
        r@ == trimmed_of(s@, c),
{
    let ghost p = is_char(c);
    let mut a: usize = 0;
    assert(s@.skip(0) =~= s@);
    while a < s.len() && s[a] == c
        invariant
            a <= s.len(),
            p == is_char(c),
            skip_leading(s@, p) == skip_leading(s@.skip(a as int), p),
        decreases s.len() - a,
    {
        assert(s@.skip(a as int).drop_first() =~= s@.skip(a + 1));
        a += 1;
    }
    trim_end_of(slice_subrange(s, a, s.len()), c)
}

/// `str::starts_with` with a text.
pub fn starts_with(s: &[char], t: &str) -> (r: bool)
    ensures
        r == t@.is_prefix_of(s@),
{
    let head: Vec<char> = to_chars(t);
    if head.len() > s.len() {
        return false;
    }
    let mut i: usize = 0;
    while i < head.len()
        invariant
            i <= head.len() <= s.len(),
            head@ == t@,
            forall|j: int| 0 <= j < i ==> head@[j] == s@[j],
        decreases head.len() - i,
    {
        if head[i] != s[i] {
            assert(s@.subrange(0, head@.len() as int)[i as int] == s@[i as int]);
            return false;
        }
        i += 1;
    }
    true
}

/// `str::strip_prefix` with a text.
pub fn strip_prefix<'a>(s: &'a [char], t: &str) -> (r: Option<&'a [char]>)
    ensures
        r is Some <==> t@.is_prefix_of(s@),
        r matches Some(rest) ==> rest@ == s@.skip(t@.len() as int),
{
    if starts_with(s, t) {
        let n: usize = to_chars(t).len();
        Some(slice_subrange(s, n, s.len()))
    } else {
        None
    }
}

/// `str::trim_start_matches` with a text.
pub fn strip_leading<'a>(s: &'a [char], t: &str) -> (r: &'a [char])
    requires
        t@.len() > 0,
    ensures
        r@ == without_leading(s@, t@),
{
    let mut rest: &'a [char] = s;
    loop
        invariant
            t@.len() > 0,
            without_leading(s@, t@) == without_leading(rest@, t@),
        decreases rest@.len(),
    {
        match strip_prefix(rest, t) {
            Some(shorter) => {
                rest = shorter;
            },
            None => {
                return rest;
            },
        }
    }
}

/// The two texts are the same.
pub fn same(s: &[char], t: &[char]) -> (r: bool)
    ensures
        r == (s@ == t@),
{
    if s.len() != t.len() {
        return false;
    }
    let mut i: usize = 0;
    while i < s.len()
        invariant
            i <= s.len(),
            s.len() == t.len(),
            forall|j: int| 0 <= j < i ==> s@[j] == t@[j],
        decreases s.len() - i,
    {
        if s[i] != t[i] {
            return false;
        }
        i += 1;
    }
    assert(s@ =~= t@);
    true
}

/// `s` spells the text `t`.
pub fn spells(s: &[char], t: &str) -> (r: bool)
    ensures
        r == (s@ == t@),
{
    same(s, to_chars(t).as_slice())
}

/// The two texts are the same.
pub fn same_text(s: &str, t: &str) -> (r: bool)
    ensures
        r == (s@ == t@),
{
    spells(to_chars(s).as_slice(), t)
}

/// `s` ends with the text `t`.
pub fn ends_with(s: &[char], t: &[char]) -> (r: bool)
    ensures
        r == t@.is_suffix_of(s@),
{
    if t.len() > s.len() {
        return false;
    }
    same(slice_subrange(s, s.len() - t.len(), s.len()), t)
}

/// `str::contains` with a text.
pub fn contains(s: &[char], t: &[char]) -> (r: bool)
    ensures
        r == occurs(t@, s@),
{
    if t.len() > s.len() {
        return false;
    }
    let last: usize = s.len() - t.len();
    let mut i: usize = 0;
    while i <= last
        invariant
            i <= last + 1,
            last == s.len() - t.len(),
            forall|j: int| 0 <= j < i ==> #[trigger] s@.subrange(j, j + t@.len()) != t@,
        decreases last + 1 - i,
    {
        if same(slice_subrange(s, i, i + t.len()), t) {
            return true;
        }
        if i == last {
            return false;
        }
        i += 1;
    }
    false
}

/// The position of the first `c`, or the length of `s`.
pub fn find_char(s: &[char], c: char) -> (k: usize)
    ensures
        k == first_pos(s@, c),
        k <= s.len(),
{
    let mut k: usize = 0;
    while k < s.len() && s[k] != c
        invariant
            k <= s.len(),
            forall|j: int| 0 <= j < k ==> s@[j] != c,
        decreases s.len() - k,
    {
        k += 1;
    }
    proof {
        lemma_first_pos_is(s@, c, k as int);
    }
    k
}

/// The part of `s` before the first `c`.
pub fn up_to(s: &[char], c: char) -> (r: &[char])
    ensures
        r@ == before(s@, c),
{
    slice_subrange(s, 0, find_char(s, c))
}

/// The first line of `s` and what stands behind it.
pub fn next_line(s: &[char]) -> (r: (&[char], &[char]))
    requires
        s@.len() > 0,
    ensures
        lines_of(s@) == seq![r.0@] + lines_of(r.1@),
        r.1@.len() < s@.len(),
{
    let k: usize = find_char(s, '\n');
    if k < s.len() {
        let end: usize = if k > 0 && s[k - 1] == '\r' {
            k - 1
        } else {
            k
        };
        assert(s@.take(end as int) =~= without_return(s@.take(k as int)));
        (slice_subrange(s, 0, end), slice_subrange(s, k + 1, s.len()))
    } else {
        (s, slice_subrange(s, s.len(), s.len()))
    }
}

/// The first word of `s`, empty where `s` is all white space.
pub fn word(s: &[char]) -> (r: &[char])
    ensures
        r@ == first_word(s@),
{
    let ghost p = is_white();
    let mut a: usize = 0;
    assert(s@.skip(0) =~= s@);
    while a < s.len() && is_white_space(s[a])
        invariant
            a <= s.len(),
            p == is_white(),
            skip_leading(s@, p) == skip_leading(s@.skip(a as int), p),
        decreases s.len() - a,
    {
        assert(s@.skip(a as int).drop_first() =~= s@.skip(a + 1));
        a += 1;
    }
    let ghost core = s@.skip(a as int);
    let mut b: usize = a;
    assert(core =~= s@.subrange(a as int, a as int) + s@.skip(a as int));
    while b < s.len() && !is_white_space(s[b])
        invariant
            a <= b <= s.len(),
            leading_word(core) == s@.subrange(a as int, b as int) + leading_word(s@.skip(b as int)),
        decreases s.len() - b,
    {
        assert(s@.skip(b as int).drop_first() =~= s@.skip(b + 1));
        assert(s@.subrange(a as int, b as int) + (seq![s@[b as int]] + leading_word(s@.skip(b + 1)))
            =~= s@.subrange(a as int, b + 1) + leading_word(s@.skip(b + 1)));
        b += 1;
    }
    slice_subrange(s, a, b)
}

} // verus!
