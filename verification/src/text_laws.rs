//! What holds of lines, words and trimmed text, whatever the text.

use vstd::prelude::*;
use crate::text::{
    has_prefix, has_suffix, index_of, is_white_space, joined, lemma_index_of, lemma_index_of_is,
    lemma_word_length, lines_of, pieces_of, replaced_all, trimmed, trimmed_end, trimmed_start,
    without_cr, word_length, words_of,
};

verus! {

broadcast use vstd::seq::group_seq_axioms;

/// Whether a text does not hold a character.
pub open spec fn free_of(s: Seq<char>, c: char) -> bool {
    forall|i: int| 0 <= i < s.len() ==> s[i] != c
}

/// Whether a text is all white space.
pub open spec fn is_blank(s: Seq<char>) -> bool {
    forall|i: int| 0 <= i < s.len() ==> is_white_space(#[trigger] s[i])
}

/// A line loses one carriage return at its end, and nothing else.
pub proof fn one_carriage_return_goes(line: Seq<char>)
    ensures
        without_cr(line.push('\r')) == line,
        (line.len() == 0 || line.last() != '\r') ==> without_cr(line) == line,
{
    assert(line.push('\r').drop_last() =~= line);
}

/// A text is read line by line: up to the first line feed, less a carriage return in front
/// of it, and then what follows; a text without a line feed is one line, as it is, and an
/// empty text is none.
pub proof fn lines_are_read_one_by_one(line: Seq<char>, rest: Seq<char>)
    requires
        free_of(line, '\n'),
    ensures
        lines_of(line + seq!['\n'] + rest) == seq![without_cr(line)] + lines_of(rest),
        line.len() > 0 ==> lines_of(line) == seq![line],
        lines_of(Seq::empty()).len() == 0,
{
    let s = line + seq!['\n'] + rest;
    lemma_index_of_is(s, '\n', line.len() as int);
    assert(s.take(line.len() as int) =~= line);
    assert(s.skip(line.len() as int + 1) =~= rest);
    if line.len() > 0 {
        lemma_index_of_is(line, '\n', line.len() as int);
    }
}

proof fn lemma_trimmed_start(s: Seq<char>)
    ensures
        ({
            let n = s.len() - trimmed_start(s).len();
            &&& 0 <= n <= s.len()
            &&& trimmed_start(s) == s.skip(n)
            &&& is_blank(s.take(n))
            &&& n < s.len() ==> !is_white_space(s[n])
        }),
    decreases s.len(),
{
    if s.len() > 0 && is_white_space(s[0]) {
        let t = s.drop_first();
        lemma_trimmed_start(t);
        let n = t.len() - trimmed_start(t).len();
        assert(t.skip(n) =~= s.skip(n + 1));
        assert forall|i: int| 0 <= i < n + 1 implies is_white_space(
            #[trigger] s.take(n + 1)[i],
        ) by {
            if i > 0 {
                assert(t.take(n)[i - 1] == s[i]);
            }
        }
    } else {
        assert(s.skip(0) =~= s);
    }
}

pub(crate) proof fn lemma_trimmed_end(s: Seq<char>)
    ensures
        ({
            let n = trimmed_end(s).len() as int;
            &&& 0 <= n <= s.len()
            &&& trimmed_end(s) == s.take(n)
            &&& is_blank(s.skip(n))
            &&& n > 0 ==> !is_white_space(s[n - 1])
        }),
    decreases s.len(),
{
    if s.len() > 0 && is_white_space(s.last()) {
        let t = s.drop_last();
        lemma_trimmed_end(t);
        let n = trimmed_end(t).len() as int;
        assert(t.take(n) =~= s.take(n));
        assert forall|i: int| 0 <= i < s.skip(n).len() implies is_white_space(
            #[trigger] s.skip(n)[i],
        ) by {
            if i < t.skip(n).len() {
                assert(t.skip(n)[i] == s[n + i]);
            }
        }
    } else {
        assert(s.take(s.len() as int) =~= s);
    }
}

/// Trimming takes away white space at the ends of a text and nothing else, and all of it.
pub proof fn trimming_takes_white_space_only(s: Seq<char>)
    ensures
        exists|from: int, to: int|
            #![trigger s.subrange(from, to)]
            0 <= from <= to <= s.len() && trimmed(s) == s.subrange(from, to) && is_blank(
                s.take(from),
            ) && is_blank(s.skip(to)),
        trimmed(s).len() > 0 ==> !is_white_space(trimmed(s)[0]) && !is_white_space(
            trimmed(s).last(),
        ),
{
    lemma_trimmed_start(s);
    let from = s.len() - trimmed_start(s).len();
    let t = s.skip(from);
    lemma_trimmed_end(t);
    let to = from + trimmed_end(t).len();
    assert(t.take(trimmed_end(t).len() as int) =~= s.subrange(from, to));
    assert(t.skip(trimmed_end(t).len() as int) =~= s.skip(to));
    assert(trimmed(s) == s.subrange(from, to));
}

/// White space around a text that has none at its ends is what trimming takes away.
pub proof fn surrounding_white_space_goes(before: Seq<char>, s: Seq<char>, after: Seq<char>)
    requires
        is_blank(before),
        is_blank(after),
        s.len() > 0,
        !is_white_space(s[0]),
        !is_white_space(s.last()),
    ensures
        trimmed(before + s + after) == s,
{
    let whole = before + s + after;
    lemma_trimmed_start(whole);
    let n = whole.len() - trimmed_start(whole).len();
    if n < before.len() {
        assert(whole[n] == before[n]);
        assert(is_white_space(before[n]));
    } else if n > before.len() {
        assert(whole.take(n)[before.len() as int] == s[0]);
    }
    let t = whole.skip(n);
    assert(t =~= s + after);
    lemma_trimmed_end(t);
    let m = trimmed_end(t).len() as int;
    if m < s.len() {
        assert(t.skip(m)[s.len() - 1 - m] == s.last());
    } else if m > s.len() {
        assert(t[m - 1] == after[m - 1 - s.len()]);
        assert(is_white_space(after[m - 1 - s.len()]));
    }
    assert(t.take(m) =~= s);
}

/// Words are what stands between white space: a text without any is one word, white space
/// parts the words before it from those behind it, and an empty text has none.
pub proof fn white_space_parts_words(a: Seq<char>, c: char, b: Seq<char>)
    requires
        is_white_space(c),
    ensures
        words_of(a.push(c) + b) == words_of(a) + words_of(b),
        (a.len() > 0 && forall|i: int| 0 <= i < a.len() ==> !is_white_space(#[trigger] a[i]))
            ==> words_of(a) == seq![a],
        words_of(Seq::empty()).len() == 0,
    decreases a.len(),
{
    let s = a.push(c) + b;
    if a.len() == 0 {
        assert(s.drop_first() =~= b);
        assert(words_of(a) + words_of(b) =~= words_of(b));
    } else if is_white_space(a[0]) {
        assert(s.drop_first() =~= a.drop_first().push(c) + b);
        white_space_parts_words(a.drop_first(), c, b);
    } else {
        lemma_word_length(a);
        lemma_word_length(s);
        let n = word_length(a) as int;
        assert(word_length(s) == n) by {
            let m = word_length(s) as int;
            if m < n {
                assert(s[m] == a[m]);
            } else if m > n {
                if n < a.len() {
                    assert(s[n] == a[n]);
                } else {
                    assert(s[n] == c);
                }
            }
        }
        assert(s.take(n) =~= a.take(n));
        assert(s.skip(n) =~= a.skip(n).push(c) + b);
        white_space_parts_words(a.skip(n), c, b);
        assert(words_of(s) =~= words_of(a) + words_of(b));
        if forall|i: int| 0 <= i < a.len() ==> !is_white_space(#[trigger] a[i]) {
            assert(n == a.len());
            assert(a.take(n) =~= a);
            assert(words_of(a.skip(n)) =~= Seq::empty());
            assert(words_of(a) =~= seq![a]);
        }
    }
}

/// The pieces of a text, joined by what they were cut at, are the text again, and no
/// piece holds it.
pub proof fn pieces_join_to_the_text(s: Seq<char>, sep: char)
    ensures
        joined(pieces_of(s, sep), seq![sep]) == s,
        pieces_of(s, sep).len() > 0,
        forall|i: int|
            0 <= i < pieces_of(s, sep).len() ==> free_of(#[trigger] pieces_of(s, sep)[i], sep),
    decreases s.len(),
{
    let at = index_of(s, sep);
    lemma_index_of(s, sep);
    let pieces = pieces_of(s, sep);
    if at >= s.len() {
        assert(pieces =~= seq![s]);
    } else {
        let rest = s.skip(at + 1);
        pieces_join_to_the_text(rest, sep);
        let others = pieces_of(rest, sep);
        assert(pieces.drop_first() =~= others);
        lemma_joined_front(pieces, seq![sep]);
        assert(s =~= s.take(at) + seq![sep] + rest);
        assert forall|i: int| 0 <= i < pieces.len() implies free_of(#[trigger] pieces[i], sep) by {
            if i > 0 {
                assert(pieces[i] == others[i - 1]);
            }
        }
    }
}

/// Parts joined are the first part, the separator, and the others joined.
pub proof fn lemma_joined_front(parts: Seq<Seq<char>>, sep: Seq<char>)
    requires
        parts.len() >= 2,
    ensures
        joined(parts, sep) == parts[0] + sep + joined(parts.drop_first(), sep),
    decreases parts.len(),
{
    if parts.len() == 2 {
        reveal_with_fuel(joined, 2);
        assert(parts.drop_last()[0] == parts[0]);
        assert(parts.drop_first()[0] == parts.last());
    } else {
        lemma_joined_front(parts.drop_last(), sep);
        assert(parts.drop_last().drop_first() =~= parts.drop_first().drop_last());
        assert(parts.drop_first().last() == parts.last());
        assert(joined(parts, sep) =~= parts[0] + sep + joined(parts.drop_first(), sep));
    }
}

/// A text in which a pattern does not occur is left as it is, and where it starts with one
/// that is not empty, that one is replaced, and then the rest. Where it does not start with
/// one, its first character stays.
pub proof fn replacing_works_from_the_left(s: Seq<char>, pat: Seq<char>, with: Seq<char>)
    requires
        pat.len() > 0,
    ensures
        (forall|i: int| 0 <= i <= s.len() ==> !has_prefix(#[trigger] s.skip(i), pat))
            ==> replaced_all(s, pat, with) == s,
        replaced_all(pat + s, pat, with) == with + replaced_all(s, pat, with),
        s.len() > 0 && !has_prefix(s, pat) ==> replaced_all(s, pat, with) == seq![s[0]]
            + replaced_all(s.drop_first(), pat, with),
    decreases s.len(),
{
    let whole = pat + s;
    assert(whole.take(pat.len() as int) =~= pat);
    assert(whole.skip(pat.len() as int) =~= s);
    if s.len() > 0 && forall|i: int|
        0 <= i <= s.len() ==> !has_prefix(#[trigger] s.skip(i), pat) {
        let t = s.drop_first();
        assert(s.skip(0) =~= s);
        assert forall|i: int| 0 <= i <= t.len() implies !has_prefix(#[trigger] t.skip(i), pat) by {
            assert(t.skip(i) =~= s.skip(i + 1));
        }
        replacing_works_from_the_left(t, pat, with);
        assert(seq![s[0]] + t =~= s);
    }
}

/// An empty pattern stands before every character and at the end.
pub proof fn empty_patterns_stand_everywhere(c: char, s: Seq<char>, with: Seq<char>)
    ensures
        replaced_all(Seq::empty(), Seq::empty(), with) == with,
        replaced_all(seq![c] + s, Seq::empty(), with) == with + seq![c] + replaced_all(
            s,
            Seq::empty(),
            with,
        ),
{
    let whole = seq![c] + s;
    assert(whole.drop_first() =~= s);
    assert(with.push(c) =~= with + seq![c]);
}

/// White space is tabulator, line feed, vertical tabulator, form feed, carriage return,
/// space, next line, no-break space, ogham space, the spaces from en quad to hair space,
/// the separators of lines and of paragraphs, narrow no-break space, mathematical space
/// and ideographic space, and nothing else.
pub proof fn these_are_white_space(c: char)
    ensures
        is_white_space(c) <==> (c == '\t' || c == '\n' || c == '\u{b}' || c == '\u{c}' || c
            == '\r' || c == ' ' || c == '\u{85}' || c == '\u{a0}' || c == '\u{1680}' || c
            == '\u{2000}' || c == '\u{2001}' || c == '\u{2002}' || c == '\u{2003}' || c
            == '\u{2004}' || c == '\u{2005}' || c == '\u{2006}' || c == '\u{2007}' || c
            == '\u{2008}' || c == '\u{2009}' || c == '\u{200a}' || c == '\u{2028}' || c
            == '\u{2029}' || c == '\u{202f}' || c == '\u{205f}' || c == '\u{3000}'),
{
}

/// Parts are joined one by one, with the separator between each two and none at the ends.
pub proof fn parts_are_joined_one_by_one(
    parts: Seq<Seq<char>>,
    part: Seq<char>,
    sep: Seq<char>,
)
    ensures
        joined(Seq::empty(), sep).len() == 0,
        joined(seq![part], sep) == part,
        parts.len() > 0 ==> joined(parts.push(part), sep) == joined(parts, sep) + sep + part,
        parts.len() > 0 ==> joined(seq![part] + parts, sep) == part + sep + joined(parts, sep),
{
    assert(parts.push(part).drop_last() =~= parts);
    if parts.len() > 0 {
        let all = seq![part] + parts;
        lemma_joined_front(all, sep);
        assert(all.drop_first() =~= parts);
    }
}

/// A text begins with its beginnings and ends with its ends, and with nothing else.
pub proof fn beginnings_and_ends_are_compared_whole(a: Seq<char>, b: Seq<char>)
    ensures
        has_prefix(a + b, a),
        has_suffix(a + b, b),
        has_prefix(a, b) ==> b + a.skip(b.len() as int) == a,
        has_suffix(a, b) ==> a.take(a.len() - b.len()) + b == a,
{
    assert((a + b).take(a.len() as int) =~= a);
    assert((a + b).skip((a + b).len() - b.len()) =~= b);
    if has_prefix(a, b) {
        assert(b + a.skip(b.len() as int) =~= a);
    }
    if has_suffix(a, b) {
        assert(a.take(a.len() - b.len()) + b =~= a);
    }
}

} // verus!
