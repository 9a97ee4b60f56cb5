//! What anchors, their messages and the messages of edits say.

use vstd::prelude::*;
use vstd::utf8::encode_utf8;
use crate::anchor::{
    anchor_check, anchor_list_of, anchor_of, anchors_of, edit_lines_of, first_five, fnv1a, tag_char,
    tag_of, tagged_lines,
};
use crate::edit::{anchors_check, contiguous, inserted, replaced};
use crate::number::{decimal, parsed_usize};
use crate::text::{is_white_space, joined, lemma_index_of_is, lines_of, trimmed};
use crate::text_laws::{free_of, surrounding_white_space_goes};

verus! {

broadcast use vstd::seq::group_seq_axioms;

/// The hash of bytes starts from an offset, and for each byte it is combined with the byte
/// and multiplied by a prime, modulo 2^32.
pub proof fn bytes_are_hashed_in_turn(bytes: Seq<u8>, byte: u8)
    ensures
        fnv1a(Seq::empty()) == 2166136261u32,
        fnv1a(bytes.push(byte)) as int == ((fnv1a(bytes) ^ byte as u32) as int * 16777619)
            % 4294967296,
{
    assert(bytes.push(byte).drop_last() =~= bytes);
}

/// A tag spells the hash of the line's bytes modulo 2^24 in four letters, the highest
/// first: capital letters, small letters, digits, underscore and hyphen, in this order.
pub proof fn tags_spell_the_hash(line: Seq<char>)
    ensures
        ({
            let value = fnv1a(encode_utf8(line)) as int % 16777216;
            tag_of(line) == seq![
                tag_char((value / 262144) as u32),
                tag_char((value / 4096 % 64) as u32),
                tag_char((value / 64 % 64) as u32),
                tag_char((value % 64) as u32),
            ]
        }),
        forall|i: u32| i < 26 ==> (#[trigger] tag_char(i)) as int == 'A' as int + i,
        forall|i: u32| 26 <= i < 52 ==> (#[trigger] tag_char(i)) as int == 'a' as int + i - 26,
        forall|i: u32| 52 <= i < 62 ==> (#[trigger] tag_char(i)) as int == '0' as int + i - 52,
        tag_char(62) == '_',
        tag_char(63) == '-',
{
    let hash = fnv1a(encode_utf8(line));
    let value: u32 = hash & 0x00ff_ffff;
    assert(value == hash % 16777216 && (value >> 18) & 0x3f == value / 262144 && (value >> 12)
        & 0x3f == value / 4096 % 64 && (value >> 6) & 0x3f == value / 64 % 64 && value & 0x3f
        == value % 64) by (bit_vector)
        requires
            value == hash & 0x00ff_ffff,
    ;
}

/// Whether a text holds neither white space nor a colon nor a vertical bar.
pub open spec fn is_part(s: Seq<char>) -> bool {
    &&& forall|i: int| 0 <= i < s.len() ==> !is_white_space(#[trigger] s[i])
    &&& free_of(s, ':')
    &&& free_of(s, '|')
}

/// An anchor is refused with the first thing that is wrong with it: no colon, no number
/// before the colon, the number zero, or no tag behind the colon.
pub proof fn anchors_are_refused_with_what_is_wrong(number: Seq<char>, tag: Seq<char>)
    requires
        is_part(number),
        is_part(tag),
    ensures
        anchor_of(number) == Err::<(usize, Seq<char>), Seq<char>>(
            "Error: invalid anchor '"@ + number + "'; expected line:tag"@,
        ),
        ({
            let value = number + seq![':'] + tag;
            anchor_of(value) == match parsed_usize(number) {
                None => Err::<(usize, Seq<char>), Seq<char>>(
                    "Error: invalid line number in anchor '"@ + value + "'"@,
                ),
                Some(n) => if n == 0 {
                    Err("Error: line numbers are 1-indexed"@)
                } else if tag.len() == 0 {
                    Err("Error: missing tag in anchor '"@ + value + "'"@)
                } else {
                    Ok((n, tag))
                },
            }
        }),
{
    lemma_part_is_kept(number);
    lemma_part_is_kept(tag);
    lemma_index_of_is(number, '|', number.len() as int);
    assert(number.take(number.len() as int) =~= number);
    lemma_index_of_is(number, ':', number.len() as int);
    let value = number + seq![':'] + tag;
    assert(free_of(value, '|'));
    lemma_index_of_is(value, '|', value.len() as int);
    assert(value.take(value.len() as int) =~= value);
    let none = Seq::<char>::empty();
    assert(trimmed(value) == value) by {
        surrounding_white_space_goes(none, value, none);
        assert(none + value + none =~= value);
    }
    let at = number.len() as int;
    lemma_index_of_is(value, ':', at);
    assert(value.take(at) =~= number);
    assert(value.skip(at + 1) =~= tag);
}

proof fn lemma_part_is_kept(s: Seq<char>)
    requires
        is_part(s),
    ensures
        trimmed(s) == s,
{
    let none = Seq::<char>::empty();
    if s.len() > 0 {
        assert(!is_white_space(s[0]) && !is_white_space(s[s.len() - 1]));
        surrounding_white_space_goes(none, s, none);
        assert(none + s + none =~= s);
    }
}

/// Anchors are read line by line: a blank line says nothing, a good anchor stands before
/// those of the other lines, and the first bad one refuses them all.
pub proof fn anchors_are_read_line_by_line(line: Seq<char>, lines: Seq<Seq<char>>)
    ensures
        trimmed(line).len() == 0 ==> anchors_of(seq![line] + lines) == anchors_of(lines),
        trimmed(line).len() > 0 ==> match anchor_of(trimmed(line)) {
            Err(e) => anchors_of(seq![line] + lines) == Err::<Seq<(usize, Seq<char>)>, Seq<char>>(
                e,
            ),
            Ok(anchor) => match anchors_of(lines) {
                Err(e) => anchors_of(seq![line] + lines) == Err::<
                    Seq<(usize, Seq<char>)>,
                    Seq<char>,
                >(e),
                Ok(others) => anchors_of(seq![line] + lines) == Ok::<
                    Seq<(usize, Seq<char>)>,
                    Seq<char>,
                >(seq![anchor] + others),
            },
        },
    decreases lines.len(),
{
    let all = seq![line] + lines;
    if lines.len() == 0 {
        assert(all.drop_last() =~= Seq::empty());
        assert(all.last() == line);
        assert(anchors_of(all.drop_last()) == Ok::<Seq<(usize, Seq<char>)>, Seq<char>>(
            Seq::empty(),
        ));
        if let Ok(anchor) = anchor_of(trimmed(line)) {
            assert(Seq::<(usize, Seq<char>)>::empty().push(anchor) =~= seq![anchor] + Seq::<
                (usize, Seq<char>),
            >::empty());
        }
    } else {
        let fewer = lines.drop_last();
        assert(all.drop_last() =~= seq![line] + fewer);
        assert(all.last() == lines.last());
        anchors_are_read_line_by_line(line, fewer);
        if let Ok(anchor) = anchor_of(trimmed(line)) {
            if let Ok(others) = anchors_of(fewer) {
                if let Ok(last) = anchor_of(trimmed(lines.last())) {
                    assert((seq![anchor] + others).push(last) =~= seq![anchor] + others.push(
                        last,
                    ));
                }
            }
        }
    }
}

/// A list of anchors is that of its lines, and one with none is refused.
pub proof fn lists_hold_at_least_one_anchor(value: Seq<char>)
    ensures
        match anchors_of(lines_of(value)) {
            Err(e) => anchor_list_of(value) == Err::<Seq<(usize, Seq<char>)>, Seq<char>>(e),
            Ok(anchors) => if anchors.len() > 0 {
                anchor_list_of(value) == Ok::<Seq<(usize, Seq<char>)>, Seq<char>>(anchors)
            } else {
                anchor_list_of(value) == Err::<Seq<(usize, Seq<char>)>, Seq<char>>(
                    "Error: old_lines must contain at least one line:tag anchor"@,
                )
            },
        },
{
}

/// What is said of a stale anchor: that its line is outside of the file, or which tag was
/// expected and which was found, and where the expected tag stands by now, at most five
/// lines of these.
pub proof fn stale_anchors_are_explained(
    lines: Seq<Seq<char>>,
    line_no: nat,
    tag: Seq<char>,
    count: int,
)
    requires
        line_no >= 1,
        0 <= count <= 5,
        count == tagged_lines(lines, tag).len() || (count == 5 && count <= tagged_lines(
            lines,
            tag,
        ).len()),
    ensures
        line_no > lines.len() ==> anchor_check(lines, line_no, tag) == Err::<(), Seq<char>>(
            "Error: line "@ + decimal(line_no) + " is outside the file"@,
        ),
        line_no <= lines.len() && tag_of(lines[line_no - 1]) != tag ==> {
            let places = Seq::new(count as nat, |i: int| decimal(tagged_lines(lines, tag)[i]));
            anchor_check(lines, line_no, tag) == Err::<(), Seq<char>>(
                "Error: tag mismatch at line "@ + decimal(line_no) + ": expected "@ + tag
                    + ", found "@ + tag_of(lines[line_no - 1]) + (if count > 0 {
                    ". Matching tag is now at line(s): "@ + joined(places, ", "@)
                } else {
                    Seq::empty()
                }) + ". Re-read the file before editing."@,
            )
        },
{
    if line_no <= lines.len() && tag_of(lines[line_no - 1]) != tag {
        let places = Seq::new(count as nat, |i: int| decimal(tagged_lines(lines, tag)[i]));
        assert(first_five(tagged_lines(lines, tag)) =~= places);
        let front = "Error: tag mismatch at line "@ + decimal(line_no) + ": expected "@ + tag
            + ", found "@ + tag_of(lines[line_no - 1]);
        let now = ". Matching tag is now at line(s): "@;
        let end = ". Re-read the file before editing."@;
        assert(front + (now + joined(places, ", "@)) + end =~= front + now + joined(places, ", "@)
            + end);
        assert(front + Seq::<char>::empty() + end =~= front + end);
    }
}

/// A replacement is refused with the first thing that is wrong: an anchor that cannot be
/// read, anchors that do not follow one another, or the first anchor that is stale.
pub proof fn replacements_are_refused_with_what_is_wrong(
    lines: Seq<Seq<char>>,
    old_lines: Seq<char>,
    new_string: Seq<char>,
)
    ensures
        match anchor_list_of(old_lines) {
            Err(e) => replaced(lines, old_lines, new_string) == Err::<
                (Seq<Seq<char>>, Seq<char>),
                Seq<char>,
            >(e),
            Ok(anchors) => if exists|i: int|
                0 <= i < anchors.len() - 1 && (#[trigger] anchors[i]).0 + 1 != anchors[i + 1].0 {
                replaced(lines, old_lines, new_string) == Err::<
                    (Seq<Seq<char>>, Seq<char>),
                    Seq<char>,
                >("Error: old_lines anchors must be contiguous and in increasing line order"@)
            } else {
                forall|i: int|
                    0 <= i < anchors.len() && first_stale(lines, anchors, i) ==> replaced(
                        lines,
                        old_lines,
                        new_string,
                    ) == Err::<(Seq<Seq<char>>, Seq<char>), Seq<char>>(
                        #[trigger] anchor_check(
                            lines,
                            anchors[i].0 as nat,
                            anchors[i].1,
                        )->Err_0,
                    )
            },
        },
{
    if let Ok(anchors) = anchor_list_of(old_lines) {
        if !exists|i: int|
            0 <= i < anchors.len() - 1 && (#[trigger] anchors[i]).0 + 1 != anchors[i + 1].0 {
            assert(contiguous(anchors));
            assert forall|i: int|
                0 <= i < anchors.len() && first_stale(lines, anchors, i) implies replaced(
                lines,
                old_lines,
                new_string,
            ) == Err::<(Seq<Seq<char>>, Seq<char>), Seq<char>>(
                #[trigger] anchor_check(lines, anchors[i].0 as nat, anchors[i].1)->Err_0,
            ) by {
                lemma_first_stale(lines, anchors, i);
            }
        }
    }
}

/// Whether an anchor is the first stale one of some.
pub open spec fn first_stale(
    lines: Seq<Seq<char>>,
    anchors: Seq<(usize, Seq<char>)>,
    i: int,
) -> bool {
    &&& anchor_check(lines, anchors[i].0 as nat, anchors[i].1) is Err
    &&& forall|j: int|
        0 <= j < i ==> anchor_check(lines, (#[trigger] anchors[j]).0 as nat, anchors[j].1) is Ok
}

proof fn lemma_first_stale(lines: Seq<Seq<char>>, anchors: Seq<(usize, Seq<char>)>, i: int)
    requires
        0 <= i < anchors.len(),
        first_stale(lines, anchors, i),
    ensures
        anchors_check(lines, anchors) == anchor_check(
            lines,
            anchors[i].0 as nat,
            anchors[i].1,
        ),
    decreases anchors.len(),
{
    let fewer = anchors.drop_last();
    if i < anchors.len() - 1 {
        assert(fewer[i] == anchors[i]);
        assert forall|j: int| 0 <= j < i implies anchor_check(
            lines,
            (#[trigger] fewer[j]).0 as nat,
            fewer[j].1,
        ) is Ok by {
            assert(fewer[j] == anchors[j]);
        }
        lemma_first_stale(lines, fewer, i);
    } else {
        assert forall|j: int| 0 <= j < fewer.len() implies anchor_check(
            lines,
            (#[trigger] fewer[j]).0 as nat,
            fewer[j].1,
        ) is Ok by {
            assert(fewer[j] == anchors[j]);
        }
        lemma_none_stale(lines, fewer);
    }
}

proof fn lemma_none_stale(lines: Seq<Seq<char>>, anchors: Seq<(usize, Seq<char>)>)
    requires
        forall|j: int|
            0 <= j < anchors.len() ==> anchor_check(
                lines,
                (#[trigger] anchors[j]).0 as nat,
                anchors[j].1,
            ) is Ok,
    ensures
        anchors_check(lines, anchors) is Ok,
    decreases anchors.len(),
{
    if anchors.len() > 0 {
        let fewer = anchors.drop_last();
        assert forall|j: int| 0 <= j < fewer.len() implies anchor_check(
            lines,
            (#[trigger] fewer[j]).0 as nat,
            fewer[j].1,
        ) is Ok by {
            assert(fewer[j] == anchors[j]);
        }
        lemma_none_stale(lines, fewer);
        assert(anchor_check(
            lines,
            anchors[anchors.len() - 1].0 as nat,
            anchors[anchors.len() - 1].1,
        ) is Ok);
    }
}

/// An insertion is refused with the first thing that is wrong: an anchor that cannot be
/// read, one that is stale, or nothing to insert.
pub proof fn insertions_are_refused_with_what_is_wrong(
    lines: Seq<Seq<char>>,
    anchor: Seq<char>,
    after: bool,
    new_string: Seq<char>,
)
    ensures
        match anchor_of(anchor) {
            Err(e) => inserted(lines, anchor, after, new_string) == Err::<
                (Seq<Seq<char>>, Seq<char>),
                Seq<char>,
            >(e),
            Ok((line_no, tag)) => match anchor_check(lines, line_no as nat, tag) {
                Err(e) => inserted(lines, anchor, after, new_string) == Err::<
                    (Seq<Seq<char>>, Seq<char>),
                    Seq<char>,
                >(e),
                Ok(()) => edit_lines_of(new_string).len() == 0 ==> inserted(
                    lines,
                    anchor,
                    after,
                    new_string,
                ) == Err::<(Seq<Seq<char>>, Seq<char>), Seq<char>>(
                    "Error: new_string is empty; nothing to insert"@,
                ),
            },
        },
{
}

/// The summary of an edit that was done tells which lines were replaced and by how many,
/// or how many were inserted and where.
pub proof fn summaries_tell_what_was_done(
    lines: Seq<Seq<char>>,
    text: Seq<char>,
    after: bool,
    new_string: Seq<char>,
)
    ensures
        replaced(lines, text, new_string) matches Ok((_, summary)) ==> {
            let anchors = anchor_list_of(text)->Ok_0;
            let start = anchors[0].0;
            let end = anchors[anchors.len() - 1].0;
            anchor_list_of(text) is Ok && summary == "Replaced lines "@ + decimal(start as nat)
                + "-"@ + decimal(end as nat) + " ("@ + decimal((end - start + 1) as nat) + " -> "@
                + decimal(edit_lines_of(new_string).len()) + " line(s))"@
        },
        inserted(lines, text, after, new_string) matches Ok((_, summary)) ==> {
            anchor_of(text) is Ok && summary == "Inserted "@ + decimal(
                edit_lines_of(new_string).len(),
            ) + (if after {
                " line(s) after line "@
            } else {
                " line(s) before line "@
            }) + decimal(anchor_of(text)->Ok_0.0 as nat)
        },
{
}

} // verus!
