//! What the functions on texts do, said of texts that are put together from parts.
use vstd::prelude::*;
use vstd::utf8::*;

use crate::text;

verus! {

/// Nothing but white space.
pub open spec fn all_white(s: Seq<char>) -> bool {
    forall|i: int| 0 <= i < s.len() ==> text::white_space(#[trigger] s[i])
}

/// Nothing but `c`.
pub open spec fn all_of(s: Seq<char>, c: char) -> bool {
    forall|i: int| 0 <= i < s.len() ==> #[trigger] s[i] == c
}

/// Empty, or without white space at either end.
pub open spec fn bare(s: Seq<char>) -> bool {
    s.len() > 0 ==> !text::white_space(s[0]) && !text::white_space(s[s.len() - 1])
}

/// Empty, or without `c` at either end.
pub open spec fn free_of(s: Seq<char>, c: char) -> bool {
    s.len() > 0 ==> s[0] != c && s[s.len() - 1] != c
}

/// Empty, or begins with `c`.
pub open spec fn none_or_from(s: Seq<char>, c: char) -> bool {
    s.len() > 0 ==> s[0] == c
}

/// `k` copies of `t`, one behind the other.
pub open spec fn copies(t: Seq<char>, k: nat) -> Seq<char>
    decreases k,
{
    if k == 0 {
        seq![]
    } else {
        t + copies(t, (k - 1) as nat)
    }
}

/// White space is what Unicode says, by code points.
pub proof fn law_white_space(c: char)
    ensures
        text::white_space(c) <==> {
            let n = c as int;
            ||| 9 <= n <= 13
            ||| n == 32
            ||| n == 0x85
            ||| n == 0xa0
            ||| n == 0x1680
            ||| 0x2000 <= n <= 0x200a
            ||| n == 0x2028
            ||| n == 0x2029
            ||| n == 0x202f
            ||| n == 0x205f
            ||| n == 0x3000
        },
{
}

/// The case of an ASCII text changes letter by letter, by 32 in the code.
pub proof fn law_ascii_case(s: Seq<char>)
    requires
        is_ascii_chars(s),
    ensures
        text::lowercase(s).len() == s.len(),
        text::uppercase(s).len() == s.len(),
        forall|i: int|
            0 <= i < s.len() ==> #[trigger] text::lowercase(s)[i] as int == (if 65 <= s[i] as int
                <= 90 {
                s[i] as int + 32
            } else {
                s[i] as int
            }),
        forall|i: int|
            0 <= i < s.len() ==> #[trigger] text::uppercase(s)[i] as int == (if 97 <= s[i] as int
                <= 122 {
                s[i] as int - 32
            } else {
                s[i] as int
            }),
{
}

// ── Trimming ────────────────────────────────────────────────────────────────

proof fn lemma_skip_leading_run(a: Seq<char>, t: Seq<char>, p: spec_fn(char) -> bool)
    requires
        forall|i: int| 0 <= i < a.len() ==> p(#[trigger] a[i]),
        t.len() > 0 ==> !p(t[0]),
    ensures
        text::skip_leading(a + t, p) == t,
    decreases a.len(),
{
    if a.len() == 0 {
        assert(a + t =~= t);
    } else {
        assert((a + t)[0] == a[0]);
        assert((a + t).drop_first() =~= a.drop_first() + t);
        assert forall|i: int| 0 <= i < a.drop_first().len() implies p(
            #[trigger] a.drop_first()[i],
        ) by {
            assert(p(a[i + 1]));
        }
        lemma_skip_leading_run(a.drop_first(), t, p);
    }
}

proof fn lemma_skip_trailing_run(t: Seq<char>, b: Seq<char>, p: spec_fn(char) -> bool)
    requires
        forall|i: int| 0 <= i < b.len() ==> p(#[trigger] b[i]),
        t.len() > 0 ==> !p(t.last()),
    ensures
        text::skip_trailing(t + b, p) == t,
    decreases b.len(),
{
    if b.len() == 0 {
        assert(t + b =~= t);
    } else {
        assert((t + b).last() == b[b.len() - 1]);
        assert((t + b).drop_last() =~= t + b.drop_last());
        assert forall|i: int| 0 <= i < b.drop_last().len() implies p(
            #[trigger] b.drop_last()[i],
        ) by {
            assert(p(b[i]));
        }
        lemma_skip_trailing_run(t, b.drop_last(), p);
    }
}

/// The characters that `skip_leading` leaves out.
proof fn lemma_leading_part(s: Seq<char>, p: spec_fn(char) -> bool) -> (a: Seq<char>)
    ensures
        s == a + text::skip_leading(s, p),
        forall|i: int| 0 <= i < a.len() ==> p(#[trigger] a[i]),
        text::skip_leading(s, p).len() > 0 ==> !p(text::skip_leading(s, p)[0]),
    decreases s.len(),
{
    if s.len() > 0 && p(s[0]) {
        let a = lemma_leading_part(s.drop_first(), p);
        let r = seq![s[0]] + a;
        assert(s =~= seq![s[0]] + s.drop_first());
        assert(s =~= r + text::skip_leading(s, p));
        r
    } else {
        assert(s =~= seq![] + s);
        seq![]
    }
}

/// The characters that `skip_trailing` leaves out.
proof fn lemma_trailing_part(s: Seq<char>, p: spec_fn(char) -> bool) -> (b: Seq<char>)
    ensures
        s == text::skip_trailing(s, p) + b,
        forall|i: int| 0 <= i < b.len() ==> p(#[trigger] b[i]),
        text::skip_trailing(s, p).len() > 0 ==> !p(text::skip_trailing(s, p).last()),
    decreases s.len(),
{
    if s.len() > 0 && p(s.last()) {
        let b = lemma_trailing_part(s.drop_last(), p);
        let r = b.push(s.last());
        assert(s =~= s.drop_last().push(s.last()));
        assert(s =~= text::skip_trailing(s, p) + r);
        r
    } else {
        assert(s =~= s + seq![]);
        seq![]
    }
}

/// Trimming takes the white space off both ends, and nothing else.
pub proof fn law_trimmed(a: Seq<char>, t: Seq<char>, b: Seq<char>)
    requires
        all_white(a),
        all_white(b),
        bare(t),
    ensures
        text::trimmed(a + t + b) == t,
{
    let p = text::is_white();
    if t.len() > 0 {
        assert(a + t + b =~= a + (t + b));
        assert((t + b)[0] == t[0]);
        lemma_skip_leading_run(a, t + b, p);
        lemma_skip_trailing_run(t, b, p);
    } else {
        let ab = a + b;
        assert forall|i: int| 0 <= i < ab.len() implies p(#[trigger] ab[i]) by {
            if i < a.len() {
                assert(p(a[i]));
            } else {
                assert(p(b[i - a.len()]));
            }
        }
        assert(a + t + b =~= ab + t);
        lemma_skip_leading_run(ab, t, p);
        assert(t + Seq::<char>::empty() =~= t);
        lemma_skip_trailing_run(t, seq![], p);
    }
}

/// Every text is a trimmed text with white space around it.
pub proof fn law_trimmed_parts(s: Seq<char>) -> (r: (Seq<char>, Seq<char>))
    ensures
        s == r.0 + text::trimmed(s) + r.1,
        all_white(r.0),
        all_white(r.1),
        bare(text::trimmed(s)),
{
    let p = text::is_white();
    let u = text::skip_leading(s, p);
    let a = lemma_leading_part(s, p);
    let b = lemma_trailing_part(u, p);
    text::lemma_trimmed(s);
    assert(s =~= a + text::trimmed(s) + b);
    assert forall|i: int| 0 <= i < a.len() implies text::white_space(#[trigger] a[i]) by {
        assert(p(a[i]));
    }
    assert forall|i: int| 0 <= i < b.len() implies text::white_space(#[trigger] b[i]) by {
        assert(p(b[i]));
    }
    (a, b)
}

/// White space around a text does not show once it is trimmed.
pub proof fn law_trimmed_padded(a: Seq<char>, s: Seq<char>, b: Seq<char>)
    requires
        all_white(a),
        all_white(b),
    ensures
        text::trimmed(a + s + b) == text::trimmed(s),
{
    let (x, y) = law_trimmed_parts(s);
    let t = text::trimmed(s);
    assert(a + s + b =~= (a + x) + t + (y + b));
    law_trimmed(a + x, t, y + b);
}

/// Trimming an end of a character takes off all copies of it there, and nothing else.
pub proof fn law_trimmed_end_of(t: Seq<char>, run: Seq<char>, c: char)
    requires
        all_of(run, c),
        t.len() > 0 ==> t[t.len() - 1] != c,
    ensures
        text::trimmed_end_of(t + run, c) == t,
{
    lemma_skip_trailing_run(t, run, text::is_char(c));
}

/// Every text is one that does not end in a character, with copies of it behind.
pub proof fn law_trimmed_end_parts(s: Seq<char>, c: char) -> (run: Seq<char>)
    ensures
        s == text::trimmed_end_of(s, c) + run,
        all_of(run, c),
        text::trimmed_end_of(s, c).len() > 0 ==> text::trimmed_end_of(s, c).last() != c,
{
    let p = text::is_char(c);
    let run = lemma_trailing_part(s, p);
    assert forall|i: int| 0 <= i < run.len() implies #[trigger] run[i] == c by {
        assert(p(run[i]));
    }
    run
}

/// Trimming both ends of a character takes off all copies of it there, and nothing else.
pub proof fn law_trimmed_of(a: Seq<char>, t: Seq<char>, b: Seq<char>, c: char)
    requires
        all_of(a, c),
        all_of(b, c),
        free_of(t, c),
    ensures
        text::trimmed_of(a + t + b, c) == t,
{
    let p = text::is_char(c);
    if t.len() > 0 {
        assert(a + t + b =~= a + (t + b));
        assert((t + b)[0] == t[0]);
        lemma_skip_leading_run(a, t + b, p);
        lemma_skip_trailing_run(t, b, p);
    } else {
        let ab = a + b;
        assert forall|i: int| 0 <= i < ab.len() implies p(#[trigger] ab[i]) by {
            if i < a.len() {
                assert(p(a[i]));
            } else {
                assert(p(b[i - a.len()]));
            }
        }
        assert(a + t + b =~= ab + t);
        lemma_skip_leading_run(ab, t, p);
        assert(t + Seq::<char>::empty() =~= t);
        lemma_skip_trailing_run(t, seq![], p);
    }
}

/// All copies of a text at the start are taken off, and nothing else.
pub proof fn law_without_leading(t: Seq<char>, k: nat, s: Seq<char>)
    requires
        t.len() > 0,
        !t.is_prefix_of(s),
    ensures
        text::without_leading(copies(t, k) + s, t) == s,
    decreases k,
{
    let whole = copies(t, k) + s;
    if k == 0 {
        assert(whole =~= s);
    } else {
        let rest = copies(t, (k - 1) as nat) + s;
        assert(whole =~= t + rest);
        assert(whole.subrange(0, t.len() as int) =~= t);
        assert(whole.skip(t.len() as int) =~= rest);
        law_without_leading(t, (k - 1) as nat, s);
    }
}

/// Every text is a number of copies of a text, and one that does not begin with it.
pub proof fn law_without_leading_parts(s: Seq<char>, t: Seq<char>) -> (k: nat)
    requires
        t.len() > 0,
    ensures
        s == copies(t, k) + text::without_leading(s, t),
        !t.is_prefix_of(text::without_leading(s, t)),
    decreases s.len(),
{
    if t.is_prefix_of(s) {
        let rest = s.skip(t.len() as int);
        let k = law_without_leading_parts(rest, t);
        assert(s =~= t + rest) by {
            assert(s =~= s.subrange(0, t.len() as int) + rest);
        }
        assert(s =~= copies(t, (k + 1) as nat) + text::without_leading(s, t)) by {
            assert(copies(t, (k + 1) as nat) == t + copies(t, k));
            assert(t + (copies(t, k) + text::without_leading(rest, t)) =~= (t + copies(t, k))
                + text::without_leading(rest, t));
        }
        (k + 1) as nat
    } else {
        assert(copies(t, 0) =~= seq![]);
        assert(s =~= copies(t, 0) + s);
        0
    }
}

// ── Taking apart ────────────────────────────────────────────────────────────

/// A text is divided at the first place of a character.
pub proof fn law_before_and_behind(a: Seq<char>, c: char, b: Seq<char>)
    requires
        !a.contains(c),
    ensures
        text::before(a + seq![c] + b, c) == a,
        text::behind(a + seq![c] + b, c) == b,
        text::first_pos(a + seq![c] + b, c) == a.len(),
        text::before(a, c) == a,
        text::first_pos(a, c) == a.len(),
{
    let s = a + seq![c] + b;
    assert forall|j: int| 0 <= j < a.len() implies s[j] != c && a[j] != c by {
        assert(a.contains(a[j]));
    }
    text::lemma_first_pos_is(s, c, a.len() as int);
    text::lemma_first_pos_is(a, c, a.len() as int);
    assert(s.take(a.len() as int) =~= a);
    assert(s.skip(1 + a.len() as int) =~= b);
    assert(a.take(a.len() as int) =~= a);
}

/// Every text is a part without a character, and nothing or that character and more.
pub proof fn law_before_parts(s: Seq<char>, c: char) -> (tail: Seq<char>)
    ensures
        s == text::before(s, c) + tail,
        none_or_from(tail, c),
        !text::before(s, c).contains(c),
{
    text::lemma_first_pos(s, c);
    let k = text::first_pos(s, c);
    assert(s =~= s.take(k) + s.skip(k));
    s.skip(k)
}

/// What stands before a character does not depend on what follows it.
pub proof fn law_before(a: Seq<char>, tail: Seq<char>, c: char)
    requires
        !a.contains(c),
        none_or_from(tail, c),
    ensures
        text::before(a + tail, c) == a,
{
    if tail.len() > 0 {
        assert(a + tail =~= a + seq![c] + tail.drop_first());
        law_before_and_behind(a, c, tail.drop_first());
    } else {
        assert(a + tail =~= a);
        law_before_and_behind(a, c, seq![]);
    }
}

/// A line goes up to its line feed, without one carriage return before that; the last
/// line goes up to the end.
pub proof fn law_lines(line: Seq<char>, rest: Seq<char>)
    requires
        !line.contains('\n'),
    ensures
        text::lines_of(line + seq!['\n'] + rest) == seq![
            if line.len() > 0 && line[line.len() - 1] == '\r' {
                line.take(line.len() - 1)
            } else {
                line
            },
        ] + text::lines_of(rest),
        line.len() > 0 ==> text::lines_of(line) == seq![line],
        text::lines_of(Seq::<char>::empty()).len() == 0,
{
    let s = line + seq!['\n'] + rest;
    law_before_and_behind(line, '\n', rest);
    assert(s.take(line.len() as int) =~= line);
    assert(s.skip(1 + line.len() as int) =~= rest);
    if line.len() > 0 && line[line.len() - 1] == '\r' {
        assert(line.drop_last() =~= line.take(line.len() - 1));
    }
}

proof fn lemma_leading_word(w: Seq<char>, b: Seq<char>)
    requires
        forall|i: int| 0 <= i < w.len() ==> !text::white_space(#[trigger] w[i]),
        b.len() > 0 ==> text::white_space(b[0]),
    ensures
        text::leading_word(w + b) == w,
    decreases w.len(),
{
    if w.len() == 0 {
        assert(w + b =~= b);
        assert(w =~= seq![]);
    } else {
        assert((w + b)[0] == w[0]);
        assert((w + b).drop_first() =~= w.drop_first() + b);
        assert forall|i: int| 0 <= i < w.drop_first().len() implies !text::white_space(
            #[trigger] w.drop_first()[i],
        ) by {
            assert(!text::white_space(w[i + 1]));
        }
        lemma_leading_word(w.drop_first(), b);
        assert(seq![w[0]] + w.drop_first() =~= w);
    }
}

/// The first word goes from the first character that is no white space to the next one
/// that is.
pub proof fn law_first_word(a: Seq<char>, w: Seq<char>, b: Seq<char>)
    requires
        all_white(a),
        w.len() > 0,
        forall|i: int| 0 <= i < w.len() ==> !text::white_space(#[trigger] w[i]),
        b.len() > 0 ==> text::white_space(b[0]),
    ensures
        text::first_word(a + w + b) == w,
{
    assert(a + w + b =~= a + (w + b));
    assert((w + b)[0] == w[0]);
    lemma_skip_leading_run(a, w + b, text::is_white());
    lemma_leading_word(w, b);
}

/// White space alone holds no word.
pub proof fn law_no_word(a: Seq<char>)
    requires
        all_white(a),
    ensures
        text::first_word(a).len() == 0,
{
    assert(a + Seq::<char>::empty() =~= a);
    lemma_skip_leading_run(a, seq![], text::is_white());
}

/// A text occurs in another if and only if that one is the text with something, or
/// nothing, on either side.
pub proof fn law_occurs(a: Seq<char>, t: Seq<char>, b: Seq<char>)
    ensures
        text::occurs(t, a + t + b),
{
    let s = a + t + b;
    assert(s.subrange(a.len() as int, a.len() as int + t.len()) =~= t);
}

/// What stands on either side of a text that occurs in another.
pub proof fn law_occurs_parts(t: Seq<char>, s: Seq<char>) -> (r: (Seq<char>, Seq<char>))
    requires
        text::occurs(t, s),
    ensures
        s == r.0 + t + r.1,
{
    let i = choose|i: int|
        0 <= i <= s.len() - t.len() && #[trigger] s.subrange(i, i + t.len()) == t;
    assert(s =~= s.take(i) + t + s.skip(i + t.len())) by {
        assert(s =~= s.take(i) + s.subrange(i, i + t.len()) + s.skip(i + t.len()));
    }
    (s.take(i), s.skip(i + t.len()))
}

/// The pieces of a text hold no separator, and with separators between them they are
/// the text.
pub proof fn law_pieces(s: Seq<char>, c: char)
    ensures
        text::pieces(s, c).len() > 0,
        text::joined(text::pieces(s, c), c) == s,
        forall|i: int|
            0 <= i < text::pieces(s, c).len() ==> !(#[trigger] text::pieces(s, c)[i]).contains(c),
{
    text::lemma_joined_pieces(s, c);
    assert forall|i: int| 0 <= i < text::pieces(s, c).len() implies !(#[trigger] text::pieces(
        s,
        c,
    )[i]).contains(c) by {
        text::lemma_pieces_without(s, c, i);
    }
}

/// Joined texts stand one behind the other, with one separator between each and the next.
pub proof fn law_joined(parts: Seq<Seq<char>>, c: char, more: Seq<char>)
    ensures
        text::joined(Seq::<Seq<char>>::empty(), c).len() == 0,
        text::joined(seq![more], c) == more,
        parts.len() > 0 ==> text::joined(parts + seq![more], c) == text::joined(parts, c) + seq![c]
            + more,
{
    text::lemma_joined_push(parts, c, more);
    assert(parts + seq![more] =~= parts.push(more));
}

} // verus!
