//! Text as sequences of characters: cutting, trimming and joining.

use vstd::prelude::*;

verus! {

broadcast use vstd::seq::group_seq_axioms;

/// `String::push` appends one character at the end.
pub assume_specification[ String::push ](s: &mut String, c: char)
    ensures
        final(s)@ == old(s)@.push(c),
;

/// The views of a sequence of owned strings.
pub open spec fn views(parts: Seq<String>) -> Seq<Seq<char>> {
    parts.map_values(|s: String| s@)
}

/// The characters of a string.
pub fn chars_of(s: &str) -> (r: Vec<char>)
    ensures
        r@ == s@,
{
    let mut v: Vec<char> = Vec::new();
    for c in it: s.chars()
        invariant
            v@ == it.seq().take(it.index()),
            it.seq() == s@,
    {
        v.push(c);
    }
    v
}

/// The string made of the characters from index `from` up to, not including, `to`.
pub fn string_of(cs: &Vec<char>, from: usize, to: usize) -> (r: String)
    requires
        from <= to <= cs@.len(),
    ensures
        r@ == cs@.subrange(from as int, to as int),
{
    let mut s = String::new();
    let mut i: usize = from;
    while i < to
        invariant
            from <= i <= to <= cs@.len(),
            s@ == cs@.subrange(from as int, i as int),
        decreases to - i,
    {
        s.push(cs[i]);
        i = i + 1;
    }
    s
}

/// Whether two strings hold the same characters.
pub fn same_text(a: &str, b: &str) -> (r: bool)
    ensures
        r == (a@ == b@),
{
    let x = chars_of(a);
    let y = chars_of(b);
    same_chars(&x, &y)
}

/// Whether two character vectors are equal.
pub fn same_chars(x: &Vec<char>, y: &Vec<char>) -> (r: bool)
    ensures
        r == (x@ == y@),
{
    if x.len() != y.len() {
        return false;
    }
    let mut i: usize = 0;
    while i < x.len()
        invariant
            i <= x@.len(),
            x@.len() == y@.len(),
            forall|j: int| 0 <= j < i ==> x@[j] == y@[j],
        decreases x@.len() - i,
    {
        if x[i] != y[i] {
            return false;
        }
        i = i + 1;
    }
    assert(x@ =~= y@);
    true
}

/// Whether `s` starts with `prefix`.
pub open spec fn has_prefix(s: Seq<char>, prefix: Seq<char>) -> bool {
    prefix.len() <= s.len() && s.take(prefix.len() as int) == prefix
}

/// Whether `s` ends with `suffix`.
pub open spec fn has_suffix(s: Seq<char>, suffix: Seq<char>) -> bool {
    suffix.len() <= s.len() && s.skip(s.len() - suffix.len()) == suffix
}

/// Whether the characters of `s` from index `at` on start with `pat`.
pub fn matches_at(s: &Vec<char>, at: usize, pat: &Vec<char>) -> (r: bool)
    requires
        at <= s@.len(),
    ensures
        r == has_prefix(s@.skip(at as int), pat@),
{
    let n = s.len();
    if pat.len() > n - at {
        return false;
    }
    let mut i: usize = 0;
    while i < pat.len()
        invariant
            at + pat@.len() <= n == s@.len(),
            i <= pat@.len(),
            forall|j: int| 0 <= j < i ==> s@[at + j] == pat@[j],
        decreases pat@.len() - i,
    {
        if s[at + i] != pat[i] {
            proof {
                assert(s@.skip(at as int).take(pat@.len() as int)[i as int] == s@[at + i]);
            }
            return false;
        }
        i = i + 1;
    }
    assert(s@.skip(at as int).take(pat@.len() as int) =~= pat@);
    true
}

/// The characters with the Unicode property `White_Space`.
pub open spec fn is_white_space(c: char) -> bool {
    ||| '\u{9}' <= c <= '\u{d}'
    ||| c == ' '
    ||| c == '\u{85}'
    ||| c == '\u{a0}'
    ||| c == '\u{1680}'
    ||| '\u{2000}' <= c <= '\u{200a}'
    ||| c == '\u{2028}'
    ||| c == '\u{2029}'
    ||| c == '\u{202f}'
    ||| c == '\u{205f}'
    ||| c == '\u{3000}'
}

/// Whether a character is white space.
pub fn white_space(c: char) -> (r: bool)
    ensures
        r == is_white_space(c),
{
    ('\u{9}' <= c && c <= '\u{d}') || c == ' ' || c == '\u{85}' || c == '\u{a0}'
        || c == '\u{1680}' || ('\u{2000}' <= c && c <= '\u{200a}') || c == '\u{2028}'
        || c == '\u{2029}' || c == '\u{202f}' || c == '\u{205f}' || c == '\u{3000}'
}

/// Text without its leading white space.
pub open spec fn trimmed_start(s: Seq<char>) -> Seq<char>
    decreases s.len(),
{
    if s.len() > 0 && is_white_space(s[0]) {
        trimmed_start(s.drop_first())
    } else {
        s
    }
}

/// Text without its trailing white space.
pub open spec fn trimmed_end(s: Seq<char>) -> Seq<char>
    decreases s.len(),
{
    if s.len() > 0 && is_white_space(s.last()) {
        trimmed_end(s.drop_last())
    } else {
        s
    }
}

/// Text without the white space at both of its ends.
pub open spec fn trimmed(s: Seq<char>) -> Seq<char> {
    trimmed_end(trimmed_start(s))
}

/// Where the characters from `from` to `to` end once trailing white space is dropped.
pub fn trim_end_index(cs: &Vec<char>, from: usize, to: usize) -> (r: usize)
    requires
        from <= to <= cs@.len(),
    ensures
        from <= r <= to,
        trimmed_end(cs@.subrange(from as int, to as int)) == cs@.subrange(from as int, r as int),
        r > from ==> !is_white_space(cs@[r - 1]),
{
    let mut end: usize = to;
    while end > from && white_space(cs[end - 1])
        invariant
            from <= end <= to <= cs@.len(),
            trimmed_end(cs@.subrange(from as int, to as int)) == trimmed_end(
                cs@.subrange(from as int, end as int),
            ),
        decreases end - from,
    {
        assert(cs@.subrange(from as int, end as int).drop_last() =~= cs@.subrange(
            from as int,
            end - 1,
        ));
        end = end - 1;
    }
    end
}

/// Where the characters from `from` to `to` start once leading white space is dropped.
pub fn trim_start_index(cs: &Vec<char>, from: usize, to: usize) -> (r: usize)
    requires
        from <= to <= cs@.len(),
    ensures
        from <= r <= to,
        trimmed_start(cs@.subrange(from as int, to as int)) == cs@.subrange(r as int, to as int),
{
    let mut start: usize = from;
    while start < to && white_space(cs[start])
        invariant
            from <= start <= to <= cs@.len(),
            trimmed_start(cs@.subrange(from as int, to as int)) == trimmed_start(
                cs@.subrange(start as int, to as int),
            ),
        decreases to - start,
    {
        assert(cs@.subrange(start as int, to as int).drop_first() =~= cs@.subrange(
            start + 1,
            to as int,
        ));
        start = start + 1;
    }
    start
}

/// Text without the white space at both of its ends.
pub fn trim(s: &str) -> (r: String)
    ensures
        r@ == trimmed(s@),
{
    let cs = chars_of(s);
    assert(cs@.subrange(0, cs@.len() as int) =~= s@);
    let start = trim_start_index(&cs, 0, cs.len());
    let end = trim_end_index(&cs, start, cs.len());
    string_of(&cs, start, end)
}

/// The index of the first `c` in `s`, or the length of `s` where there is none.
pub open spec fn index_of(s: Seq<char>, c: char) -> int
    decreases s.len(),
{
    if s.len() == 0 || s[0] == c {
        0
    } else {
        1 + index_of(s.drop_first(), c)
    }
}

/// What `index_of` finds is the first occurrence.
pub proof fn lemma_index_of(s: Seq<char>, c: char)
    ensures
        0 <= index_of(s, c) <= s.len(),
        index_of(s, c) < s.len() ==> s[index_of(s, c)] == c,
        forall|j: int| 0 <= j < index_of(s, c) ==> s[j] != c,
    decreases s.len(),
{
    if s.len() > 0 && s[0] != c {
        lemma_index_of(s.drop_first(), c);
        assert forall|j: int| 0 <= j < index_of(s, c) implies s[j] != c by {
            if j > 0 {
                assert(s[j] == s.drop_first()[j - 1]);
            }
        }
    }
}

/// The first occurrence is the one that `index_of` finds.
pub proof fn lemma_index_of_is(s: Seq<char>, c: char, at: int)
    requires
        0 <= at <= s.len(),
        at < s.len() ==> s[at] == c,
        forall|j: int| 0 <= j < at ==> s[j] != c,
    ensures
        index_of(s, c) == at,
{
    lemma_index_of(s, c);
}

/// The index of the first `c` at or after `from` and before `to`, or `to`.
pub fn find_char(cs: &Vec<char>, from: usize, to: usize, c: char) -> (r: usize)
    requires
        from <= to <= cs@.len(),
    ensures
        from <= r <= to,
        r - from == index_of(cs@.subrange(from as int, to as int), c),
        r < to ==> cs@[r as int] == c,
{
    let mut i: usize = from;
    while i < to && cs[i] != c
        invariant
            from <= i <= to <= cs@.len(),
            forall|j: int| from <= j < i ==> cs@[j] != c,
        decreases to - i,
    {
        i = i + 1;
    }
    proof {
        lemma_index_of_is(cs@.subrange(from as int, to as int), c, i - from);
    }
    i
}

/// A line without the carriage return at its end.
pub open spec fn without_cr(line: Seq<char>) -> Seq<char> {
    if line.len() > 0 && line.last() == '\r' {
        line.drop_last()
    } else {
        line
    }
}

/// The lines of a text. A line ends with a line feed, which may follow a carriage
/// return; the last line may end without one.
pub open spec fn lines_of(s: Seq<char>) -> Seq<Seq<char>>
    decreases s.len(),
{
    if s.len() == 0 {
        Seq::empty()
    } else {
        let at = index_of(s, '\n');
        if at < 0 || at >= s.len() {
            seq![s]
        } else {
            seq![without_cr(s.take(at))] + lines_of(s.skip(at + 1))
        }
    }
}

/// The lines of a text.
pub fn split_lines(s: &str) -> (r: Vec<String>)
    ensures
        views(r@) == lines_of(s@),
{
    let cs = chars_of(s);
    let mut out: Vec<String> = Vec::new();
    let mut start: usize = 0;
    let n = cs.len();
    assert(cs@.skip(0) =~= s@);
    while start < n
        invariant
            start <= n == cs@.len(),
            lines_of(s@) =~= views(out@) + lines_of(cs@.skip(start as int)),
        decreases n - start,
    {
        let at = find_char(&cs, start, n, '\n');
        proof {
            lemma_index_of(cs@.skip(start as int), '\n');
            assert(cs@.skip(start as int) =~= cs@.subrange(start as int, n as int));
        }
        if at == n {
            out.push(string_of(&cs, start, n));
            start = n;
            assert(lines_of(cs@.skip(start as int)) =~= Seq::empty());
        } else {
            let end = if at > start && cs[at - 1] == '\r' {
                at - 1
            } else {
                at
            };
            out.push(string_of(&cs, start, end));
            proof {
                let rest = cs@.skip(start as int);
                assert(rest.take(at - start) =~= cs@.subrange(start as int, at as int));
                assert(without_cr(rest.take(at - start)) =~= cs@.subrange(
                    start as int,
                    end as int,
                ));
                assert(rest.skip(at - start + 1) =~= cs@.skip(at + 1));
            }
            start = at + 1;
        }
    }
    assert(lines_of(cs@.skip(start as int)) =~= Seq::empty());
    out
}

/// The pieces of a text between the occurrences of `sep`; there is always one.
pub open spec fn pieces_of(s: Seq<char>, sep: char) -> Seq<Seq<char>>
    decreases s.len(),
{
    let at = index_of(s, sep);
    if at < 0 || at >= s.len() {
        seq![s]
    } else {
        seq![s.take(at)] + pieces_of(s.skip(at + 1), sep)
    }
}

/// The parts one after another with `sep` between them.
pub open spec fn joined(parts: Seq<Seq<char>>, sep: Seq<char>) -> Seq<char>
    decreases parts.len(),
{
    if parts.len() == 0 {
        Seq::empty()
    } else if parts.len() == 1 {
        parts[0]
    } else {
        joined(parts.drop_last(), sep) + sep + parts.last()
    }
}

/// The parts one after another with `sep` between them.
pub fn join(parts: &Vec<String>, sep: &str) -> (r: String)
    ensures
        r@ == joined(views(parts@), sep@),
{
    let mut s = String::new();
    let mut i: usize = 0;
    while i < parts.len()
        invariant
            i <= parts@.len(),
            s@ == joined(views(parts@).take(i as int), sep@),
        decreases parts@.len() - i,
    {
        let ghost before = s@;
        if i > 0 {
            s.append(sep);
        }
        s.append(parts[i].as_str());
        proof {
            let done = views(parts@).take(i + 1);
            assert(done.drop_last() =~= views(parts@).take(i as int));
            assert(done.last() == parts@[i as int]@);
            if i == 0 {
                assert(s@ =~= done[0]);
            }
        }
        i = i + 1;
    }
    assert(views(parts@).take(i as int) =~= views(parts@));
    s
}

/// Every occurrence of `pat`, from the left and without overlap, replaced. An empty
/// pattern occurs before each character and at the end.
pub open spec fn replaced_all(s: Seq<char>, pat: Seq<char>, with: Seq<char>) -> Seq<char>
    decreases s.len(),
{
    if pat.len() == 0 {
        if s.len() == 0 {
            with
        } else {
            with.push(s[0]) + replaced_all(s.drop_first(), pat, with)
        }
    } else if s.len() == 0 {
        s
    } else if has_prefix(s, pat) {
        with + replaced_all(s.skip(pat.len() as int), pat, with)
    } else {
        seq![s[0]] + replaced_all(s.drop_first(), pat, with)
    }
}

/// Replaces every occurrence of `pat`.
pub fn replace_all(s: &str, pat: &str, with: &str) -> (r: String)
    ensures
        r@ == replaced_all(s@, pat@, with@),
{
    let cs = chars_of(s);
    let ps = chars_of(pat);
    let n = cs.len();
    let mut out = String::new();
    let mut i: usize = 0;
    assert(cs@.skip(0) =~= s@);
    if ps.len() == 0 {
        while i < n
            invariant
                i <= n == cs@.len(),
                ps@.len() == 0,
                replaced_all(s@, ps@, with@) =~= out@ + replaced_all(
                    cs@.skip(i as int),
                    ps@,
                    with@,
                ),
            decreases n - i,
        {
            let ghost before = out@;
            out.append(with);
            out.push(cs[i]);
            assert(cs@.skip(i as int).drop_first() =~= cs@.skip(i + 1));
            assert(out@ =~= before + with@.push(cs@[i as int]));
            i = i + 1;
        }
        out.append(with);
        return out;
    }
    while i < n
        invariant
            i <= n == cs@.len(),
            ps@.len() > 0,
            replaced_all(s@, ps@, with@) =~= out@ + replaced_all(cs@.skip(i as int), ps@, with@),
        decreases n - i,
    {
        if matches_at(&cs, i, &ps) {
            assert(cs@.skip(i as int).skip(ps@.len() as int) =~= cs@.skip(i + ps@.len()));
            out.append(with);
            i = i + ps.len();
        } else {
            assert(cs@.skip(i as int).drop_first() =~= cs@.skip(i + 1));
            let ghost before = out@;
            out.push(cs[i]);
            assert(out@ =~= before + seq![cs@[i as int]]);
            i = i + 1;
        }
    }
    assert(cs@.skip(i as int) =~= Seq::empty());
    out
}

/// How many characters come before the first white space.
pub open spec fn word_length(s: Seq<char>) -> nat
    decreases s.len(),
{
    if s.len() == 0 || is_white_space(s[0]) {
        0
    } else {
        1 + word_length(s.drop_first())
    }
}

/// The first word lies within the text, holds no white space, and white space or the end
/// of the text follows it.
pub proof fn lemma_word_length(s: Seq<char>)
    ensures
        word_length(s) <= s.len(),
        forall|j: int| 0 <= j < word_length(s) ==> !is_white_space(s[j]),
        word_length(s) < s.len() ==> is_white_space(s[word_length(s) as int]),
    decreases s.len(),
{
    if s.len() > 0 && !is_white_space(s[0]) {
        lemma_word_length(s.drop_first());
        assert forall|j: int| 0 <= j < word_length(s) implies !is_white_space(s[j]) by {
            if j > 0 {
                assert(s[j] == s.drop_first()[j - 1]);
            }
        }
    }
}

/// The words of a text: what stands between white space.
pub open spec fn words_of(s: Seq<char>) -> Seq<Seq<char>>
    decreases s.len(),
{
    if s.len() == 0 {
        Seq::empty()
    } else if is_white_space(s[0]) {
        words_of(s.drop_first())
    } else {
        proof {
            lemma_word_length(s);
        }
        seq![s.take(word_length(s) as int)] + words_of(s.skip(word_length(s) as int))
    }
}

/// The words of a text.
pub fn split_words(s: &str) -> (r: Vec<String>)
    ensures
        views(r@) == words_of(s@),
{
    let cs = chars_of(s);
    let n = cs.len();
    let mut out: Vec<String> = Vec::new();
    let mut i: usize = 0;
    assert(cs@.skip(0) =~= s@);
    while i < n
        invariant
            i <= n == cs@.len(),
            words_of(s@) =~= views(out@) + words_of(cs@.skip(i as int)),
        decreases n - i,
    {
        if white_space(cs[i]) {
            assert(cs@.skip(i as int).drop_first() =~= cs@.skip(i + 1));
            i = i + 1;
        } else {
            let mut end: usize = i;
            while end < n && !white_space(cs[end])
                invariant
                    i <= end <= n == cs@.len(),
                    word_length(cs@.skip(i as int)) == end - i + word_length(
                        cs@.skip(end as int),
                    ),
                decreases n - end,
            {
                assert(cs@.skip(end as int).drop_first() =~= cs@.skip(end + 1));
                end = end + 1;
            }
            proof {
                let rest = cs@.skip(i as int);
                assert(word_length(rest) == end - i);
                assert(rest.take(end - i) =~= cs@.subrange(i as int, end as int));
                assert(rest.skip(end - i) =~= cs@.skip(end as int));
                assert(end > i) by {
                    assert(word_length(rest) == 1 + word_length(rest.drop_first()));
                }
            }
            let ghost before = out@;
            let word = string_of(&cs, i, end);
            out.push(word);
            assert(views(out@) =~= views(before).push(word@));
            i = end;
        }
    }
    assert(words_of(cs@.skip(i as int)) =~= Seq::empty());
    out
}

} // verus!
