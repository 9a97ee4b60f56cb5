//! Image files, as far as their names tell.

use vstd::prelude::*;
use crate::text::{
    chars_of, has_prefix, is_white_space, matches_at, string_of, trim, trimmed,
};
use crate::text_laws::{is_blank, surrounding_white_space_goes};

verus! {

broadcast use vstd::seq::group_seq_axioms;

/// A character with an ASCII capital made small.
pub open spec fn small(c: char) -> char {
    if 'A' <= c <= 'Z' {
        (c as int + 32) as char
    } else {
        c
    }
}

/// Whether a path ends with `ending`, capitals or not.
pub open spec fn ends_like(path: Seq<char>, ending: Seq<char>) -> bool {
    &&& ending.len() <= path.len()
    &&& forall|i: int|
        0 <= i < ending.len() ==> small(#[trigger] path[path.len() - ending.len() + i])
            == ending[i]
}

/// Whether a path ends like an image file.
pub open spec fn names_image(path: Seq<char>) -> bool {
    ||| ends_like(path, ".png"@)
    ||| ends_like(path, ".jpg"@)
    ||| ends_like(path, ".jpeg"@)
    ||| ends_like(path, ".gif"@)
    ||| ends_like(path, ".webp"@)
    ||| ends_like(path, ".bmp"@)
}

/// The media type of an image file.
pub open spec fn media_type(path: Seq<char>) -> Seq<char> {
    if ends_like(path, ".png"@) {
        "image/png"@
    } else if ends_like(path, ".jpg"@) || ends_like(path, ".jpeg"@) {
        "image/jpeg"@
    } else if ends_like(path, ".gif"@) {
        "image/gif"@
    } else if ends_like(path, ".webp"@) {
        "image/webp"@
    } else {
        "image/bmp"@
    }
}

fn made_small(c: char) -> (r: char)
    ensures
        r == small(c),
{
    if 'A' <= c && c <= 'Z' {
        (c as u8 + 32) as char
    } else {
        c
    }
}

fn has_ending(path: &str, ending: &str) -> (r: bool)
    ensures
        r == ends_like(path@, ending@),
{
    let cs = chars_of(path);
    let es = chars_of(ending);
    if es.len() > cs.len() {
        return false;
    }
    let n = cs.len();
    let start = n - es.len();
    let mut i: usize = 0;
    while i < es.len()
        invariant
            cs@ == path@,
            es@ == ending@,
            i <= es@.len(),
            start + es@.len() == n == cs@.len(),
            forall|j: int| 0 <= j < i ==> small(#[trigger] path@[start + j]) == ending@[j],
        decreases es@.len() - i,
    {
        if made_small(cs[start + i]) != es[i] {
            proof {
                assert(small(path@[path@.len() - ending@.len() + i]) != ending@[i as int]);
            }
            return false;
        }
        i = i + 1;
    }
    true
}

/// Whether a path ends like an image file.
pub fn is_image_file(path: &str) -> (r: bool)
    ensures
        r == names_image(path@),
{
    has_ending(path, ".png") || has_ending(path, ".jpg") || has_ending(path, ".jpeg")
        || has_ending(path, ".gif") || has_ending(path, ".webp") || has_ending(path, ".bmp")
}

/// The media type of an image file.
pub fn media_type_for_path(path: &str) -> (r: &'static str)
    ensures
        r@ == media_type(path@),
{
    if has_ending(path, ".png") {
        "image/png"
    } else if has_ending(path, ".jpg") || has_ending(path, ".jpeg") {
        "image/jpeg"
    } else if has_ending(path, ".gif") {
        "image/gif"
    } else if has_ending(path, ".webp") {
        "image/webp"
    } else {
        "image/bmp"
    }
}

/// Text without any number of a prefix.
pub open spec fn unprefixed(s: Seq<char>, prefix: Seq<char>) -> Seq<char>
    decreases s.len(),
{
    if prefix.len() > 0 && has_prefix(s, prefix) {
        unprefixed(s.skip(prefix.len() as int), prefix)
    } else {
        s
    }
}

/// Text without any number of a character at its start.
pub open spec fn bare_start(s: Seq<char>, c: char) -> Seq<char>
    decreases s.len(),
{
    if s.len() > 0 && s[0] == c {
        bare_start(s.drop_first(), c)
    } else {
        s
    }
}

/// Text without any number of a character at its end.
pub open spec fn bare_end(s: Seq<char>, c: char) -> Seq<char>
    decreases s.len(),
{
    if s.len() > 0 && s.last() == c {
        bare_end(s.drop_last(), c)
    } else {
        s
    }
}

/// Text without any number of a character at both of its ends.
pub open spec fn bare(s: Seq<char>, c: char) -> Seq<char> {
    bare_end(bare_start(s, c), c)
}

/// The path that a pasted text names: without white space around it, without a scheme,
/// and without quotes.
pub open spec fn path_in(text: Seq<char>) -> Seq<char> {
    bare(bare(unprefixed(trimmed(text), "file://"@), '"'), '\'')
}

fn unprefixed_start(cs: &Vec<char>, from: usize, prefix: &Vec<char>) -> (r: usize)
    requires
        from <= cs@.len(),
        prefix@.len() > 0,
    ensures
        from <= r <= cs@.len(),
        unprefixed(cs@.skip(from as int), prefix@) == cs@.skip(r as int),
{
    let mut start: usize = from;
    while matches_at(cs, start, prefix)
        invariant
            from <= start <= cs@.len(),
            prefix@.len() > 0,
            unprefixed(cs@.skip(from as int), prefix@) == unprefixed(
                cs@.skip(start as int),
                prefix@,
            ),
        decreases cs@.len() - start,
    {
        let n = cs.len();
        assert(start + prefix@.len() <= n);
        assert(cs@.skip(start as int).skip(prefix@.len() as int) =~= cs@.skip(
            start + prefix@.len(),
        ));
        start = start + prefix.len();
    }
    start
}

fn bare_range(cs: &Vec<char>, from: usize, to: usize, c: char) -> (r: (usize, usize))
    requires
        from <= to <= cs@.len(),
    ensures
        from <= r.0 <= r.1 <= to,
        bare(cs@.subrange(from as int, to as int), c) == cs@.subrange(r.0 as int, r.1 as int),
{
    let mut start: usize = from;
    while start < to && cs[start] == c
        invariant
            from <= start <= to <= cs@.len(),
            bare_start(cs@.subrange(from as int, to as int), c) == bare_start(
                cs@.subrange(start as int, to as int),
                c,
            ),
        decreases to - start,
    {
        assert(cs@.subrange(start as int, to as int).drop_first() =~= cs@.subrange(
            start + 1,
            to as int,
        ));
        start = start + 1;
    }
    let mut end: usize = to;
    while end > start && cs[end - 1] == c
        invariant
            start <= end <= to <= cs@.len(),
            bare_end(cs@.subrange(start as int, to as int), c) == bare_end(
                cs@.subrange(start as int, end as int),
                c,
            ),
        decreases end - start,
    {
        assert(cs@.subrange(start as int, end as int).drop_last() =~= cs@.subrange(
            start as int,
            end - 1,
        ));
        end = end - 1;
    }
    (start, end)
}

/// The path that a pasted text names.
pub fn pasted_path(text: &str) -> (r: String)
    ensures
        r@ == path_in(text@),
{
    let trimmed_text = trim(text);
    let cs = chars_of(trimmed_text.as_str());
    let scheme = chars_of("file://");
    proof {
        reveal_strlit("file://");
        assert(cs@.skip(0) =~= cs@);
    }
    let start = unprefixed_start(&cs, 0, &scheme);
    let n = cs.len();
    assert(cs@.skip(start as int) =~= cs@.subrange(start as int, n as int));
    let (from, to) = bare_range(&cs, start, n, '"');
    let (from, to) = bare_range(&cs, from, to, '\'');
    string_of(&cs, from, to)
}

/// Whether a text spells a word of small letters and other characters, with capitals or
/// not.
pub open spec fn spells(text: Seq<char>, word: Seq<char>) -> bool {
    &&& text.len() == word.len()
    &&& forall|i: int|
        0 <= i < word.len() ==> #[trigger] text[i] == word[i] || ('a' <= word[i] <= 'z' && text[i]
            as int + 32 == word[i] as int)
}

/// Whether a word holds no capitals.
pub open spec fn is_small(word: Seq<char>) -> bool {
    forall|i: int| 0 <= i < word.len() ==> !('A' <= #[trigger] word[i] <= 'Z')
}

/// A path ends like a word where its last characters spell the word, whatever stands
/// before them.
pub proof fn endings_are_the_last_characters(front: Seq<char>, end: Seq<char>, word: Seq<char>)
    requires
        is_small(word),
        end.len() == word.len(),
    ensures
        ends_like(front + end, word) <==> spells(end, word),
        front.len() < word.len() ==> !ends_like(front, word),
{
    let path = front + end;
    let n = path.len() - word.len();
    assert forall|i: int| 0 <= i < word.len() implies (small(#[trigger] path[n + i]) == word[i]
        <==> (end[i] == word[i] || ('a' <= word[i] <= 'z' && end[i] as int + 32
        == word[i] as int))) by {
        assert(path[n + i] == end[i]);
        lemma_small(end[i], word[i]);
    }
    if ends_like(path, word) {
        assert forall|i: int| 0 <= i < word.len() implies #[trigger] end[i] == word[i] || ('a'
            <= word[i] <= 'z' && end[i] as int + 32 == word[i] as int) by {
            assert(small(path[n + i]) == word[i]);
        }
    }
    if spells(end, word) {
        assert forall|i: int| 0 <= i < word.len() implies small(#[trigger] path[n + i])
            == word[i] by {
            assert(path[n + i] == end[i]);
        }
    }
}

proof fn lemma_small(c: char, d: char)
    requires
        !('A' <= d <= 'Z'),
    ensures
        small(c) == d <==> (c == d || ('a' <= d <= 'z' && c as int + 32 == d as int)),
{
    if 'A' <= c <= 'Z' {
        let k = (c as int + 32) as char;
        assert(k as int == c as int + 32);
    }
}

/// Exactly the paths with one of the six endings, spelled with capitals or not, name
/// images, and the ending decides about the media type.
pub proof fn endings_decide_about_images(path: Seq<char>)
    ensures
        ({
            let is = |word: Seq<char>|
                path.len() >= word.len() && spells(path.skip(path.len() - word.len()), word);
            &&& names_image(path) <==> is(".png"@) || is(".jpg"@) || is(".jpeg"@) || is(".gif"@)
                || is(".webp"@) || is(".bmp"@)
            &&& is(".png"@) ==> media_type(path) == "image/png"@
            &&& is(".jpg"@) || is(".jpeg"@) ==> media_type(path) == "image/jpeg"@
            &&& is(".gif"@) ==> media_type(path) == "image/gif"@
            &&& is(".webp"@) ==> media_type(path) == "image/webp"@
            &&& is(".bmp"@) ==> media_type(path) == "image/bmp"@
        }),
{
    reveal_strlit(".png");
    reveal_strlit(".jpg");
    reveal_strlit(".jpeg");
    reveal_strlit(".gif");
    reveal_strlit(".webp");
    reveal_strlit(".bmp");
    lemma_ending(path, ".png"@);
    lemma_ending(path, ".jpg"@);
    lemma_ending(path, ".jpeg"@);
    lemma_ending(path, ".gif"@);
    lemma_ending(path, ".webp"@);
    lemma_ending(path, ".bmp"@);
    lemma_one_ending(path, ".png"@, ".jpg"@);
    lemma_one_ending(path, ".png"@, ".jpeg"@);
    lemma_one_ending(path, ".png"@, ".gif"@);
    lemma_one_ending(path, ".png"@, ".webp"@);
    lemma_one_ending(path, ".png"@, ".bmp"@);
    lemma_one_ending(path, ".jpg"@, ".gif"@);
    lemma_one_ending(path, ".jpg"@, ".webp"@);
    lemma_one_ending(path, ".jpg"@, ".bmp"@);
    lemma_one_ending(path, ".gif"@, ".webp"@);
    lemma_one_ending(path, ".gif"@, ".bmp"@);
    lemma_one_ending(path, ".gif"@, ".jpeg"@);
    lemma_one_ending(path, ".jpeg"@, ".webp"@);
    lemma_one_ending(path, ".jpeg"@, ".bmp"@);
    lemma_one_ending(path, ".webp"@, ".bmp"@);
}

proof fn lemma_ending(path: Seq<char>, word: Seq<char>)
    requires
        is_small(word),
    ensures
        ends_like(path, word) <==> path.len() >= word.len() && spells(
            path.skip(path.len() - word.len()),
            word,
        ),
{
    if path.len() >= word.len() {
        let n = path.len() - word.len();
        assert(path.take(n) + path.skip(n) =~= path);
        endings_are_the_last_characters(path.take(n), path.skip(n), word);
    }
}

/// No path has two endings whose characters before the last, or whose last ones, differ.
proof fn lemma_one_ending(path: Seq<char>, a: Seq<char>, b: Seq<char>)
    requires
        a.len() >= 2,
        b.len() >= 2,
        a.last() != b.last() || a[a.len() - 2] != b[b.len() - 2],
    ensures
        !(ends_like(path, a) && ends_like(path, b)),
{
    if ends_like(path, a) && ends_like(path, b) {
        let n = path.len() as int;
        assert(small(path[n - a.len() + (a.len() - 1)]) == a[a.len() - 1]);
        assert(small(path[n - b.len() + (b.len() - 1)]) == b[b.len() - 1]);
        assert(small(path[n - a.len() + (a.len() - 2)]) == a[a.len() - 2]);
        assert(small(path[n - b.len() + (b.len() - 2)]) == b[b.len() - 2]);
    }
}

/// Whether a path has nothing around it that pasting adds.
pub open spec fn is_plain_path(path: Seq<char>) -> bool {
    &&& path.len() > 0
    &&& !is_white_space(path[0])
    &&& !is_white_space(path.last())
    &&& path[0] != '"' && path[0] != '\''
    &&& path.last() != '"' && path.last() != '\''
    &&& !has_prefix(path, "file://"@)
}

/// A pasted path is found within white space, behind a scheme, and within quotes of either
/// kind, and is else left as it is.
pub proof fn pasted_paths_are_found(path: Seq<char>, a: Seq<char>, b: Seq<char>, quote: char)
    requires
        is_plain_path(path),
        is_blank(a),
        is_blank(b),
        quote == '"' || quote == '\'',
    ensures
        path_in(a + path + b) == path,
        path_in(a + ("file://"@ + path) + b) == path,
        path_in(a + (seq![quote] + path + seq![quote]) + b) == path,
        path_in(a + ("file://"@ + (seq![quote] + path + seq![quote])) + b) == path,
{
    reveal_strlit("file://");
    let scheme = "file://"@;
    let quoted = seq![quote] + path + seq![quote];
    lemma_pasted(path, path);
    surrounding_white_space_goes(a, path, b);
    lemma_quotes_go(path, quote);
    assert(!has_prefix(quoted, scheme)) by {
        if has_prefix(quoted, scheme) {
            assert(quoted.take(7)[0] == scheme[0]);
        }
    }
    lemma_pasted(quoted, path);
    surrounding_white_space_goes(a, quoted, b);
    assert((scheme + path).last() == path.last());
    surrounding_white_space_goes(a, scheme + path, b);
    assert((scheme + quoted).last() == quoted.last());
    surrounding_white_space_goes(a, scheme + quoted, b);
}

proof fn lemma_quotes_go(path: Seq<char>, quote: char)
    requires
        is_plain_path(path),
        quote == '"' || quote == '\'',
    ensures
        bare(bare(path, '"'), '\'') == path,
        bare(bare(seq![quote] + path + seq![quote], '"'), '\'') == path,
{
    reveal_with_fuel(bare_start, 2);
    reveal_with_fuel(bare_end, 2);
    let quoted = seq![quote] + path + seq![quote];
    assert(bare(path, '"') == path);
    assert(bare(path, '\'') == path);
    assert(quoted.drop_first() =~= path + seq![quote]);
    assert((path + seq![quote]).drop_last() =~= path);
    assert((path + seq![quote])[0] == path[0]);
    assert(bare(quoted, quote) == path);
    if quote != '"' {
        assert(bare(quoted, '"') == quoted);
    }
}

/// What is left of a text in front of which no scheme stands, with and without one.
proof fn lemma_pasted(text: Seq<char>, path: Seq<char>)
    requires
        !has_prefix(text, "file://"@),
        bare(bare(text, '"'), '\'') == path,
    ensures
        bare(bare(unprefixed(text, "file://"@), '"'), '\'') == path,
        bare(bare(unprefixed("file://"@ + text, "file://"@), '"'), '\'') == path,
{
    reveal_strlit("file://");
    let whole = "file://"@ + text;
    assert(whole.take(7) =~= "file://"@);
    assert(whole.skip(7) =~= text);
}

/// A scheme goes however often it stands in front, and so do quotes at the ends.
pub proof fn repeated_schemes_and_quotes_go(s: Seq<char>, prefix: Seq<char>, c: char)
    ensures
        prefix.len() > 0 ==> unprefixed(prefix + s, prefix) == unprefixed(s, prefix),
        bare(seq![c] + s, c) == bare(s, c),
        bare(s.push(c), c) == bare(s, c),
{
    assert((prefix + s).take(prefix.len() as int) =~= prefix);
    assert((prefix + s).skip(prefix.len() as int) =~= s);
    assert((seq![c] + s).drop_first() =~= s);
    lemma_bare_start_push(s, c);
    let rest = bare_start(s, c);
    assert(rest.push(c).drop_last() =~= rest);
}

proof fn lemma_bare_start_push(s: Seq<char>, c: char)
    ensures
        bare_start(s, c).len() > 0 ==> bare_start(s.push(c), c) == bare_start(s, c).push(c),
        bare_start(s, c).len() == 0 ==> bare_start(s.push(c), c).len() == 0,
    decreases s.len(),
{
    if s.len() == 0 {
        assert(s.push(c).drop_first() =~= Seq::empty());
        assert(bare_start(s.push(c).drop_first(), c).len() == 0);
    } else if s[0] == c {
        assert(s.push(c).drop_first() =~= s.drop_first().push(c));
        lemma_bare_start_push(s.drop_first(), c);
    }
}

} // verus!
