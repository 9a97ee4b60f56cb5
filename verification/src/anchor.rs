//! Line anchors: a line's number and a tag made from its content.

use vstd::prelude::*;
use vstd::utf8::encode_utf8;
use crate::number::{decimal, decimal_text, parse_usize, parsed_usize};
use crate::text::{
    chars_of, find_char, index_of, join, joined, same_text, split_lines, string_of,
    trim, trim_end_index, trim_start_index, trimmed, views, without_cr, lines_of, pieces_of,
};

verus! {

broadcast use vstd::seq::group_seq_axioms;

/// The 32-bit FNV-1a hash of a byte sequence.
pub open spec fn fnv1a(bytes: Seq<u8>) -> u32
    decreases bytes.len(),
{
    if bytes.len() == 0 {
        0x811c9dc5
    } else {
        (fnv1a(bytes.drop_last()) ^ bytes.last() as u32).wrapping_mul(0x01000193)
    }
}

/// The letter of the tag alphabet at an index below 64: capital letters, small
/// letters, digits, underscore, hyphen.
pub open spec fn tag_char(i: u32) -> char {
    if i < 26 {
        ('A' as u32 + i) as char
    } else if i < 52 {
        ('a' as u32 + (i - 26)) as char
    } else if i < 62 {
        ('0' as u32 + (i - 52)) as char
    } else if i == 62 {
        '_'
    } else {
        '-'
    }
}

/// Whether a character is a letter of the tag alphabet.
pub open spec fn is_tag_char(c: char) -> bool {
    'A' <= c <= 'Z' || 'a' <= c <= 'z' || '0' <= c <= '9' || c == '_' || c == '-'
}

/// A line's tag: four letters for the low 24 bits of the hash of the line's bytes.
pub open spec fn tag_of(line: Seq<char>) -> Seq<char> {
    let value = fnv1a(encode_utf8(line)) & 0x00ff_ffff;
    seq![
        tag_char((value >> 18) & 0x3f),
        tag_char((value >> 12) & 0x3f),
        tag_char((value >> 6) & 0x3f),
        tag_char(value & 0x3f),
    ]
}

/// Every tag is four letters of the tag alphabet.
pub proof fn tags_are_four_letters(line: Seq<char>)
    ensures
        tag_of(line).len() == 4,
        forall|i: int| 0 <= i < 4 ==> is_tag_char(#[trigger] tag_of(line)[i]),
{
    let value = fnv1a(encode_utf8(line)) & 0x00ff_ffff;
    assert((value >> 18) & 0x3f < 64 && (value >> 12) & 0x3f < 64 && (value >> 6) & 0x3f < 64
        && value & 0x3f < 64) by (bit_vector);
}

/// The letter of the tag alphabet at an index.
fn tag_letter(i: u32) -> (r: char)
    requires
        i < 64,
    ensures
        r == tag_char(i),
{
    if i < 26 {
        ('A' as u8 + i as u8) as char
    } else if i < 52 {
        ('a' as u8 + (i - 26) as u8) as char
    } else if i < 62 {
        ('0' as u8 + (i - 52) as u8) as char
    } else if i == 62 {
        '_'
    } else {
        '-'
    }
}

/// The tag of a line.
pub fn line_tag(line: &str) -> (r: String)
    ensures
        r@ == tag_of(line@),
{
    let bytes = line.as_bytes();
    let mut hash: u32 = 0x811c9dc5;
    let mut i: usize = 0;
    while i < bytes.len()
        invariant
            i <= bytes@.len(),
            hash == fnv1a(bytes@.take(i as int)),
        decreases bytes@.len() - i,
    {
        assert(bytes@.take(i + 1).drop_last() =~= bytes@.take(i as int));
        hash = (hash ^ bytes[i] as u32).wrapping_mul(0x01000193);
        i = i + 1;
    }
    assert(bytes@.take(i as int) =~= encode_utf8(line@));
    let value: u32 = hash & 0x00ff_ffff;
    assert((value >> 18) & 0x3f < 64 && (value >> 12) & 0x3f < 64 && (value >> 6) & 0x3f < 64
        && value & 0x3f < 64) by (bit_vector);
    let mut tag = String::new();
    tag.push(tag_letter((value >> 18) & 0x3f));
    tag.push(tag_letter((value >> 12) & 0x3f));
    tag.push(tag_letter((value >> 6) & 0x3f));
    tag.push(tag_letter(value & 0x3f));
    assert(tag@ =~= tag_of(line@));
    tag
}

/// An anchor's line number and the view of its tag.
pub open spec fn anchor_view(anchor: (usize, String)) -> (usize, Seq<char>) {
    (anchor.0, anchor.1@)
}

/// What an anchor text `line:tag` says, or the message that refuses it. A vertical
/// bar and all after it is left aside, and so is white space around the parts.
pub open spec fn anchor_of(value: Seq<char>) -> Result<(usize, Seq<char>), Seq<char>> {
    let prefix = trimmed(value.take(index_of(value, '|')));
    let at = index_of(prefix, ':');
    if at >= prefix.len() {
        Err("Error: invalid anchor '"@ + value + "'; expected line:tag"@)
    } else {
        let tag = trimmed(prefix.skip(at + 1));
        match parsed_usize(trimmed(prefix.take(at))) {
            None => Err("Error: invalid line number in anchor '"@ + value + "'"@),
            Some(line_no) => if line_no == 0 {
                Err("Error: line numbers are 1-indexed"@)
            } else if tag.len() == 0 {
                Err("Error: missing tag in anchor '"@ + value + "'"@)
            } else {
                Ok((line_no, tag))
            },
        }
    }
}

/// Three texts one after another.
fn concat3(a: &str, b: &str, c: &str) -> (r: String)
    ensures
        r@ == a@ + b@ + c@,
{
    let mut s = a.to_string();
    s.append(b);
    s.append(c);
    s
}

/// Reads an anchor.
pub fn parse_anchor(value: &str) -> (r: Result<(usize, String), String>)
    ensures
        match r {
            Ok(anchor) => anchor_of(value@) == Ok::<(usize, Seq<char>), Seq<char>>(
                anchor_view(anchor),
            ),
            Err(e) => anchor_of(value@) == Err::<(usize, Seq<char>), Seq<char>>(e@),
        },
{
    let cs = chars_of(value);
    let n = cs.len();
    let bar = find_char(&cs, 0, n, '|');
    assert(cs@.subrange(0, n as int) =~= value@);
    assert(cs@.subrange(0, bar as int) =~= value@.take(bar as int));
    let start = trim_start_index(&cs, 0, bar);
    let end = trim_end_index(&cs, start, bar);
    let ghost prefix = cs@.subrange(start as int, end as int);
    assert(prefix == trimmed(value@.take(index_of(value@, '|'))));
    let colon = find_char(&cs, start, end, ':');
    if colon == end {
        return Err(concat3("Error: invalid anchor '", value, "'; expected line:tag"));
    }
    let number_start = trim_start_index(&cs, start, colon);
    let number_end = trim_end_index(&cs, number_start, colon);
    let tag_start = trim_start_index(&cs, colon + 1, end);
    let tag_end = trim_end_index(&cs, tag_start, end);
    proof {
        assert(prefix.take(colon - start) =~= cs@.subrange(start as int, colon as int));
        assert(prefix.skip(colon - start + 1) =~= cs@.subrange(colon + 1, end as int));
    }
    match parse_usize(&cs, number_start, number_end) {
        None => Err(concat3("Error: invalid line number in anchor '", value, "'")),
        Some(line_no) => {
            if line_no == 0 {
                return Err("Error: line numbers are 1-indexed".to_string());
            }
            if tag_start == tag_end {
                return Err(concat3("Error: missing tag in anchor '", value, "'"));
            }
            Ok((line_no, string_of(&cs, tag_start, tag_end)))
        },
    }
}

/// The anchors that lines of text hold, blank lines left aside, or the message that
/// refuses the first bad one.
pub open spec fn anchors_of(lines: Seq<Seq<char>>) -> Result<Seq<(usize, Seq<char>)>, Seq<char>>
    decreases lines.len(),
{
    if lines.len() == 0 {
        Ok(Seq::empty())
    } else {
        match anchors_of(lines.drop_last()) {
            Err(e) => Err(e),
            Ok(anchors) => {
                let text = trimmed(lines.last());
                if text.len() == 0 {
                    Ok(anchors)
                } else {
                    match anchor_of(text) {
                        Err(e) => Err(e),
                        Ok(anchor) => Ok(anchors.push(anchor)),
                    }
                }
            },
        }
    }
}

/// What a list of anchors says, or the message that refuses it.
pub open spec fn anchor_list_of(value: Seq<char>) -> Result<Seq<(usize, Seq<char>)>, Seq<char>> {
    match anchors_of(lines_of(value)) {
        Err(e) => Err(e),
        Ok(anchors) => if anchors.len() == 0 {
            Err("Error: old_lines must contain at least one line:tag anchor"@)
        } else {
            Ok(anchors)
        },
    }
}

/// A bad anchor among the first lines refuses the whole list.
proof fn lemma_first_error_stays(lines: Seq<Seq<char>>, i: int)
    requires
        0 <= i <= lines.len(),
        anchors_of(lines.take(i)) is Err,
    ensures
        anchors_of(lines) == anchors_of(lines.take(i)),
    decreases lines.len() - i,
{
    if i < lines.len() {
        assert(lines.take(i + 1).drop_last() =~= lines.take(i));
        lemma_first_error_stays(lines, i + 1);
    } else {
        assert(lines.take(i) =~= lines);
    }
}

/// Reads a list of anchors, one to a line.
pub fn parse_anchor_list(value: &str) -> (r: Result<Vec<(usize, String)>, String>)
    ensures
        match r {
            Ok(anchors) => anchor_list_of(value@) == Ok::<
                Seq<(usize, Seq<char>)>,
                Seq<char>,
            >(anchors@.map_values(|a: (usize, String)| anchor_view(a))),
            Err(e) => anchor_list_of(value@) == Err::<Seq<(usize, Seq<char>)>, Seq<char>>(e@),
        },
{
    let lines = split_lines(value);
    let ghost all = lines_of(value@);
    let mut anchors: Vec<(usize, String)> = Vec::new();
    let ghost view = |a: (usize, String)| anchor_view(a);
    let mut i: usize = 0;
    assert(all.take(0) =~= Seq::empty());
    assert(anchors@.map_values(view) =~= Seq::empty());
    while i < lines.len()
        invariant
            i <= lines@.len(),
            views(lines@) == all,
            all == lines_of(value@),
            view == (|a: (usize, String)| anchor_view(a)),
            anchors_of(all.take(i as int)) == Ok::<Seq<(usize, Seq<char>)>, Seq<char>>(
                anchors@.map_values(view),
            ),
        decreases lines@.len() - i,
    {
        let text = trim(lines[i].as_str());
        proof {
            assert(all.take(i + 1).drop_last() =~= all.take(i as int));
            assert(all.take(i + 1).last() == lines@[i as int]@);
        }
        if text.as_str().unicode_len() > 0 {
            match parse_anchor(text.as_str()) {
                Ok(anchor) => {
                    let ghost before = anchors@;
                    anchors.push(anchor);
                    assert(anchors@.map_values(view) =~= before.map_values(view).push(
                        anchor_view(anchor),
                    ));
                },
                Err(e) => {
                    proof {
                        lemma_first_error_stays(all, i + 1);
                    }
                    return Err(e);
                },
            }
        }
        i = i + 1;
    }
    assert(all.take(i as int) =~= all);
    if anchors.len() == 0 {
        return Err("Error: old_lines must contain at least one line:tag anchor".to_string());
    }
    Ok(anchors)
}

/// The numbers of the lines with a tag, in increasing order.
pub open spec fn tagged_lines(lines: Seq<Seq<char>>, tag: Seq<char>) -> Seq<nat>
    decreases lines.len(),
{
    if lines.len() == 0 {
        Seq::empty()
    } else if tag_of(lines.last()) == tag {
        tagged_lines(lines.drop_last(), tag).push(lines.len())
    } else {
        tagged_lines(lines.drop_last(), tag)
    }
}

/// At most the first five of some numbers, in decimal notation.
pub open spec fn first_five(numbers: Seq<nat>) -> Seq<Seq<char>> {
    let count = if numbers.len() < 5 {
        numbers.len() as int
    } else {
        5
    };
    numbers.take(count).map_values(|n: nat| decimal(n))
}

/// Whether the line with a number has the expected tag, and if it has not, the
/// message that says so.
pub open spec fn anchor_check(lines: Seq<Seq<char>>, line_no: nat, expected: Seq<char>) -> Result<
    (),
    Seq<char>,
> {
    if line_no > lines.len() {
        Err("Error: line "@ + decimal(line_no) + " is outside the file"@)
    } else {
        let actual = tag_of(lines[line_no - 1]);
        let found = first_five(tagged_lines(lines, expected));
        let mismatch = "Error: tag mismatch at line "@ + decimal(line_no) + ": expected "@
            + expected + ", found "@ + actual;
        if actual == expected {
            Ok(())
        } else if found.len() == 0 {
            Err(mismatch + ". Re-read the file before editing."@)
        } else {
            Err(
                mismatch + ". Matching tag is now at line(s): "@ + joined(found, ", "@)
                    + ". Re-read the file before editing."@,
            )
        }
    }
}

/// Checks that the line with a number has the expected tag.
pub fn verify_anchor(lines: &Vec<String>, line_no: usize, expected_tag: &str) -> (r: Result<
    (),
    String,
>)
    requires
        line_no >= 1,
    ensures
        match r {
            Ok(()) => anchor_check(views(lines@), line_no as nat, expected_tag@) == Ok::<
                (),
                Seq<char>,
            >(()),
            Err(e) => anchor_check(views(lines@), line_no as nat, expected_tag@) == Err::<
                (),
                Seq<char>,
            >(e@),
        },
{
    if line_no > lines.len() {
        let number = decimal_text(line_no as u64);
        return Err(concat3("Error: line ", number.as_str(), " is outside the file"));
    }
    let actual_tag = line_tag(lines[line_no - 1].as_str());
    if same_text(actual_tag.as_str(), expected_tag) {
        return Ok(());
    }
    let matching = matching_lines(lines, expected_tag);
    let mut message = "Error: tag mismatch at line ".to_string();
    message.append(decimal_text(line_no as u64).as_str());
    message.append(": expected ");
    message.append(expected_tag);
    message.append(", found ");
    message.append(actual_tag.as_str());
    proof {
        assert(views(matching@).len() == matching@.len());
    }
    if matching.len() == 0 {
        message.append(". Re-read the file before editing.");
    } else {
        message.append(". Matching tag is now at line(s): ");
        message.append(join(&matching, ", ").as_str());
        message.append(". Re-read the file before editing.");
    }
    Err(message)
}

/// The numbers of the first five lines with a tag.
fn matching_lines(lines: &Vec<String>, tag: &str) -> (r: Vec<String>)
    ensures
        views(r@) == first_five(tagged_lines(views(lines@), tag@)),
{
    let ghost all = views(lines@);
    let mut found: Vec<String> = Vec::new();
    let mut i: usize = 0;
    assert(all.take(0) =~= Seq::empty());
    assert(views(found@) =~= first_five(tagged_lines(all.take(0), tag@)));
    while i < lines.len()
        invariant
            i <= lines@.len(),
            all == views(lines@),
            views(found@) == first_five(tagged_lines(all.take(i as int), tag@)),
        decreases lines@.len() - i,
    {
        let ghost before = tagged_lines(all.take(i as int), tag@);
        let ghost shown = found@;
        proof {
            assert(all.take(i + 1).drop_last() =~= all.take(i as int));
            assert(all.take(i + 1).last() == lines@[i as int]@);
            assert(views(shown).len() == shown.len());
        }
        if found.len() < 5 && same_text(line_tag(lines[i].as_str()).as_str(), tag) {
            found.push(decimal_text((i + 1) as u64));
            assert(before.push((i + 1) as nat).take((before.len() + 1) as int) =~= before.push(
                (i + 1) as nat,
            ));
            assert(views(found@) =~= views(shown).push(decimal((i + 1) as nat)));
        } else {
            assert(before.push((i + 1) as nat).take(before.len() as int) =~= before);
            assert(before.len() >= 5 ==> before.push((i + 1) as nat).take(5) =~= before.take(5));
        }
        assert(views(found@) =~= first_five(tagged_lines(all.take(i + 1), tag@)));
        i = i + 1;
    }
    assert(all.take(i as int) =~= all);
    found
}

/// The lines that an edit's text stands for: none for an empty text, else the text
/// cut at line feeds, one final line ending left aside, each without a carriage
/// return at its end.
pub open spec fn edit_lines_of(s: Seq<char>) -> Seq<Seq<char>> {
    if s.len() == 0 {
        Seq::empty()
    } else {
        let body = if s.last() == '\n' {
            without_cr(s.drop_last())
        } else {
            s
        };
        pieces_of(body, '\n').map_values(|piece: Seq<char>| without_cr(piece))
    }
}

/// The lines that an edit's text stands for.
pub fn edit_lines(new_string: &str) -> (r: Vec<String>)
    ensures
        views(r@) == edit_lines_of(new_string@),
{
    let cs = chars_of(new_string);
    let mut out: Vec<String> = Vec::new();
    if cs.len() == 0 {
        assert(views(out@) =~= Seq::empty());
        return out;
    }
    let mut n: usize = cs.len();
    if cs[n - 1] == '\n' {
        n = n - 1;
        if n > 0 && cs[n - 1] == '\r' {
            n = n - 1;
        }
    }
    let ghost strip = |piece: Seq<char>| without_cr(piece);
    let ghost body = cs@.take(n as int);
    proof {
        if new_string@.last() == '\n' {
            assert(body =~= without_cr(new_string@.drop_last()));
        } else {
            assert(body =~= new_string@);
        }
    }
    let mut start: usize = 0;
    assert(body.skip(0) =~= body);
    loop
        invariant
            start <= n <= cs@.len(),
            body == cs@.take(n as int),
            strip == (|piece: Seq<char>| without_cr(piece)),
            pieces_of(body, '\n').map_values(strip) =~= views(out@) + pieces_of(
                body.skip(start as int),
                '\n',
            ).map_values(strip),
            pieces_of(body, '\n').map_values(strip) == edit_lines_of(new_string@),
        decreases n - start,
    {
        let at = find_char(&cs, start, n, '\n');
        let end = if at > start && cs[at - 1] == '\r' {
            at - 1
        } else {
            at
        };
        let ghost rest = body.skip(start as int);
        let ghost before = out@;
        out.push(string_of(&cs, start, end));
        proof {
            assert(rest =~= cs@.subrange(start as int, n as int));
            assert(rest.take(at - start) =~= cs@.subrange(start as int, at as int));
            assert(without_cr(rest.take(at - start)) =~= cs@.subrange(start as int, end as int));
            assert(views(out@) =~= views(before).push(without_cr(rest.take(at - start))));
        }
        if at == n {
            proof {
                assert(rest.take(at - start) =~= rest);
                assert(pieces_of(rest, '\n').map_values(strip) =~= seq![without_cr(rest)]);
            }
            return out;
        }
        proof {
            assert(rest.skip(at - start + 1) =~= body.skip(at + 1));
            assert(pieces_of(rest, '\n').map_values(strip) =~= seq![
                without_cr(rest.take(at - start)),
            ] + pieces_of(body.skip(at + 1), '\n').map_values(strip));
        }
        start = at + 1;
    }
}

} // verus!
