//! What holds between listings, anchors and edits.

use vstd::prelude::*;
use vstd::utf8::encode_utf8;
use crate::anchor::{
    anchor_check, anchor_list_of, anchor_of, anchors_of, edit_lines_of, fnv1a, is_tag_char,
    tag_char, tag_of, tagged_lines, tags_are_four_letters,
};
use crate::edit::{
    anchors_check, contiguous, edited_file, edited_lines, ending_of, ends_with_newline, file_text,
    has_crlf, inserted, lemma_all_pass, lemma_anchor_numbers, lemma_contiguous, replaced, spliced,
    EditTargetView,
};
use crate::listing::{anchored_line, anchored_lines, listing_count, listing_of, listing_start};
use crate::number::{decimal, decimal_reads_back, is_digit, lemma_decimal};
use crate::text::{
    index_of, is_white_space, joined, lemma_index_of, lemma_index_of_is, lines_of, pieces_of,
    trimmed, trimmed_end, trimmed_start, without_cr,
};
use crate::text_laws::{
    free_of, is_blank, lemma_joined_front, pieces_join_to_the_text, surrounding_white_space_goes,
    trimming_takes_white_space_only,
};

verus! {

broadcast use vstd::seq::group_seq_axioms;

/// Text with no white space at its ends is its own trimmed form.
proof fn lemma_trimmed_same(s: Seq<char>)
    requires
        s.len() > 0,
        !is_white_space(s[0]),
        !is_white_space(s.last()),
    ensures
        trimmed(s) == s,
{
}

/// Trimming the end of a text stops at a character that is not white space.
proof fn lemma_trimmed_end_concat(a: Seq<char>, b: Seq<char>)
    requires
        a.len() > 0,
        !is_white_space(a.last()),
    ensures
        trimmed_end(a + b) == a + trimmed_end(b),
    decreases b.len(),
{
    if b.len() == 0 {
        assert(a + b =~= a);
        assert(a + trimmed_end(b) =~= a);
    } else {
        assert((a + b).last() == b.last());
        if is_white_space(b.last()) {
            assert((a + b).drop_last() =~= a + b.drop_last());
            lemma_trimmed_end_concat(a, b.drop_last());
        }
    }
}

/// The anchor in front of an anchored line, and what it is made of.
proof fn lemma_anchor_part(line_no: usize, line: Seq<char>, rest: Seq<char>)
    requires
        line_no >= 1,
    ensures
        ({
            let head = decimal(line_no as nat) + ":"@ + tag_of(line);
            &&& head.len() > 0
            &&& !is_white_space(head[0])
            &&& !is_white_space(head.last())
            &&& forall|j: int| 0 <= j < head.len() ==> head[j] != '\n' && head[j] != '|'
            &&& anchor_of(head) == Ok::<(usize, Seq<char>), Seq<char>>((line_no, tag_of(line)))
            &&& anchor_of(head + "|"@ + rest) == Ok::<(usize, Seq<char>), Seq<char>>(
                (line_no, tag_of(line)),
            )
        }),
{
    reveal_strlit(":");
    reveal_strlit("|");
    let number = decimal(line_no as nat);
    let tag = tag_of(line);
    let head = number + ":"@ + tag;
    lemma_decimal(line_no as nat);
    decimal_reads_back(line_no);
    tags_are_four_letters(line);
    assert(is_digit(number[0]) && is_digit(number.last()));
    assert(is_tag_char(tag[0]) && is_tag_char(tag[3]));
    assert(head[0] == number[0]);
    assert(head.last() == tag[3]);
    assert forall|j: int| 0 <= j < head.len() implies head[j] != '\n' && head[j] != '|' by {
        if j < number.len() {
            assert(is_digit(number[j]));
        } else if j > number.len() {
            assert(is_tag_char(tag[j - number.len() - 1]));
        }
    }
    assert forall|j: int| 0 <= j < number.len() implies head[j] != ':' by {
        assert(is_digit(number[j]));
    }
    lemma_index_of_is(head, ':', number.len() as int);
    lemma_trimmed_same(head);
    lemma_trimmed_same(number);
    lemma_trimmed_same(tag);
    assert(head.take(number.len() as int) =~= number);
    assert(head.skip((number.len() + 1) as int) =~= tag);
    // The anchor on its own.
    lemma_index_of_is(head, '|', head.len() as int);
    assert(head.take(head.len() as int) =~= head);
    // The anchor with a bar behind it.
    let whole = head + "|"@ + rest;
    lemma_index_of_is(whole, '|', head.len() as int);
    assert(whole.take(head.len() as int) =~= head);
}

/// The anchor that a listing shows in front of a line is read as the line's number and
/// the tag of its content, with or without the line behind it.
pub proof fn shown_anchor_reads_back(line_no: usize, line: Seq<char>)
    requires
        line_no >= 1,
    ensures
        anchor_of(anchored_line(line_no as nat, line)) == Ok::<(usize, Seq<char>), Seq<char>>(
            (line_no, tag_of(line)),
        ),
        anchor_of(decimal(line_no as nat) + ":"@ + tag_of(line)) == Ok::<
            (usize, Seq<char>),
            Seq<char>,
        >((line_no, tag_of(line))),
{
    lemma_anchor_part(line_no, line, line);
}

/// No line of a text holds a line feed.
proof fn lemma_lines_hold_no_newline(s: Seq<char>)
    ensures
        forall|i: int, j: int|
            0 <= i < lines_of(s).len() && 0 <= j < lines_of(s)[i].len()
                ==> #[trigger] lines_of(s)[i][j] != '\n',
    decreases s.len(),
{
    if s.len() > 0 {
        let at = index_of(s, '\n');
        lemma_index_of(s, '\n');
        if at < s.len() {
            let rest = s.skip(at + 1);
            lemma_lines_hold_no_newline(rest);
            assert forall|i: int, j: int|
                0 <= i < lines_of(s).len() && 0 <= j < lines_of(s)[i].len() implies
                #[trigger] lines_of(s)[i][j] != '\n' by {
                if i == 0 {
                    assert(lines_of(s)[0] == without_cr(s.take(at)));
                    assert(lines_of(s)[0][j] == s[j]);
                } else {
                    assert(lines_of(s)[i] == lines_of(rest)[i - 1]);
                }
            }
        }
    }
}

/// Parts without line feeds, joined by line feeds, are the lines of the result, but for
/// a carriage return at the end of any part but the last.
proof fn lemma_lines_of_joined(parts: Seq<Seq<char>>)
    requires
        parts.len() > 0,
        parts.last().len() > 0,
        forall|i: int, j: int|
            0 <= i < parts.len() && 0 <= j < parts[i].len() ==> #[trigger] parts[i][j] != '\n',
    ensures
        lines_of(joined(parts, "\n"@)).len() == parts.len(),
        forall|i: int|
            0 <= i < parts.len() - 1 ==> #[trigger] lines_of(joined(parts, "\n"@))[i]
                == without_cr(parts[i]),
        lines_of(joined(parts, "\n"@)).last() == parts.last(),
    decreases parts.len(),
{
    reveal_strlit("\n");
    let s = joined(parts, "\n"@);
    if parts.len() == 1 {
        lemma_index_of_is(s, '\n', s.len() as int);
        assert(lines_of(s) =~= seq![s]);
    } else {
        lemma_joined_front(parts, "\n"@);
        let others = parts.drop_first();
        assert forall|i: int, j: int|
            0 <= i < others.len() && 0 <= j < others[i].len() implies #[trigger] others[i][j]
            != '\n' by {
            assert(others[i][j] == parts[i + 1][j]);
        }
        lemma_lines_of_joined(others);
        let at = parts[0].len() as int;
        assert forall|j: int| 0 <= j < at implies s[j] != '\n' by {
            assert(s[j] == parts[0][j]);
        }
        lemma_index_of_is(s, '\n', at);
        assert(s.take(at) =~= parts[0]);
        assert(s.skip(at + 1) =~= joined(others, "\n"@));
        assert(lines_of(s) =~= seq![without_cr(parts[0])] + lines_of(joined(others, "\n"@)));
        assert forall|i: int| 0 <= i < parts.len() - 1 implies #[trigger] lines_of(s)[i]
            == without_cr(parts[i]) by {
            if i > 0 {
                assert(lines_of(s)[i] == lines_of(joined(others, "\n"@))[i - 1]);
                assert(others[i - 1] == parts[i]);
            }
        }
    }
}

/// An anchored line, trimmed or not, and with or without a carriage return at its end,
/// reads as its anchor.
proof fn lemma_anchored_line_trims(line_no: usize, line: Seq<char>, text: Seq<char>)
    requires
        line_no >= 1,
        text == anchored_line(line_no as nat, line) || text == without_cr(
            anchored_line(line_no as nat, line),
        ),
    ensures
        trimmed(text).len() > 0,
        anchor_of(trimmed(text)) == Ok::<(usize, Seq<char>), Seq<char>>((line_no, tag_of(line))),
{
    reveal_strlit("|");
    let head = decimal(line_no as nat) + ":"@ + tag_of(line);
    let whole = anchored_line(line_no as nat, line);
    lemma_anchor_part(line_no, line, trimmed_end(line));
    assert(whole =~= (head + "|"@) + line);
    lemma_trimmed_end_concat(head + "|"@, line);
    assert(text[0] == head[0]);
    assert(trimmed_start(text) == text);
    if text != whole {
        assert(whole.drop_last() == text);
    }
    assert(trimmed(text) =~= head + "|"@ + trimmed_end(line));
}

/// The anchors of a range of lines.
pub open spec fn anchors_for(lines: Seq<Seq<char>>, start: nat, count: nat) -> Seq<
    (usize, Seq<char>),
> {
    Seq::new(count, |i: int| ((start + i + 1) as usize, tag_of(lines[start + i])))
}

/// Texts that each read as an anchor are read in order.
proof fn lemma_anchors_of(texts: Seq<Seq<char>>, anchors: Seq<(usize, Seq<char>)>)
    requires
        texts.len() == anchors.len(),
        forall|i: int|
            0 <= i < texts.len() ==> trimmed(#[trigger] texts[i]).len() > 0 && anchor_of(
                trimmed(texts[i]),
            ) == Ok::<(usize, Seq<char>), Seq<char>>(anchors[i]),
    ensures
        anchors_of(texts) == Ok::<Seq<(usize, Seq<char>)>, Seq<char>>(anchors),
    decreases texts.len(),
{
    if texts.len() > 0 {
        lemma_anchors_of(texts.drop_last(), anchors.drop_last());
        assert(texts.last() == texts[texts.len() - 1]);
        assert(anchors.drop_last().push(anchors.last()) =~= anchors);
    } else {
        assert(anchors =~= Seq::empty());
    }
}

/// The lines that a listing shows of a file, pasted back, are read as the anchors of
/// exactly those lines.
pub proof fn shown_lines_read_as_their_anchors(content: Seq<char>, start: nat, count: nat)
    requires
        count > 0,
        start + count <= lines_of(content).len() <= usize::MAX,
    ensures
        anchor_list_of(joined(anchored_lines(lines_of(content), start, count), "\n"@)) == Ok::<
            Seq<(usize, Seq<char>)>,
            Seq<char>,
        >(anchors_for(lines_of(content), start, count)),
{
    reveal_strlit("|");
    let lines = lines_of(content);
    let parts = anchored_lines(lines, start, count);
    let text = joined(parts, "\n"@);
    lemma_lines_hold_no_newline(content);
    assert forall|i: int, j: int| 0 <= i < parts.len() && 0 <= j < parts[i].len() implies
        #[trigger] parts[i][j] != '\n' by {
        let line = lines[start + i];
        lemma_anchor_part((start + i + 1) as usize, line, line);
        let head = decimal((start + i + 1) as nat) + ":"@ + tag_of(line);
        if j < head.len() {
            assert(parts[i][j] == head[j]);
        } else if j > head.len() {
            assert(parts[i][j] == line[j - head.len() - 1]);
        }
    }
    lemma_lines_of_joined(parts);
    let found = lines_of(text);
    let anchors = anchors_for(lines, start, count);
    assert forall|i: int| 0 <= i < found.len() implies trimmed(#[trigger] found[i]).len() > 0
        && anchor_of(trimmed(found[i])) == Ok::<(usize, Seq<char>), Seq<char>>(anchors[i]) by {
        lemma_anchored_line_trims((start + i + 1) as usize, lines[start + i], found[i]);
    }
    lemma_anchors_of(found, anchors);
}

/// Anchors made from the current lines pass the check.
proof fn lemma_fresh_anchors_pass(lines: Seq<Seq<char>>, start: nat, count: nat, shown: nat)
    requires
        shown <= count,
        start + count <= lines.len() <= usize::MAX,
    ensures
        anchors_check(lines, anchors_for(lines, start, count).take(shown as int)) is Ok,
    decreases shown,
{
    if shown > 0 {
        lemma_fresh_anchors_pass(lines, start, count, (shown - 1) as nat);
        let anchors = anchors_for(lines, start, count).take(shown as int);
        assert(anchors.drop_last() =~= anchors_for(lines, start, count).take(shown - 1));
    }
}

/// Replacing the lines that a listing shows of a file, by the anchors that it shows,
/// puts the new lines exactly in their place.
pub proof fn shown_lines_can_be_replaced(
    content: Seq<char>,
    start: nat,
    count: nat,
    new_string: Seq<char>,
)
    requires
        count > 0,
        start + count <= lines_of(content).len() <= usize::MAX,
    ensures
        match replaced(
            lines_of(content),
            joined(anchored_lines(lines_of(content), start, count), "\n"@),
            new_string,
        ) {
            Ok((lines, _)) => lines == spliced(
                lines_of(content),
                start as int,
                (start + count) as int,
                edit_lines_of(new_string),
            ),
            Err(_) => false,
        },
{
    let lines = lines_of(content);
    let anchors = anchors_for(lines, start, count);
    shown_lines_read_as_their_anchors(content, start, count);
    lemma_fresh_anchors_pass(lines, start, count, count);
    assert(anchors.take(count as int) =~= anchors);
    assert(anchors.first().0 == start + 1);
    assert(anchors.last().0 == start + count);
}

/// Inserting next to a line that a listing shows, by the anchor that it shows, puts the
/// new lines right after or right before it.
pub proof fn lines_can_be_inserted_next_to_a_shown_line(
    content: Seq<char>,
    line_no: usize,
    after: bool,
    new_string: Seq<char>,
)
    requires
        1 <= line_no <= lines_of(content).len(),
        new_string.len() > 0,
    ensures
        ({
            let lines = lines_of(content);
            let anchor = anchored_line(line_no as nat, lines[line_no - 1]);
            let at = if after {
                line_no as int
            } else {
                line_no - 1
            };
            match inserted(lines, anchor, after, new_string) {
                Ok((new_lines, _)) => new_lines == spliced(
                    lines,
                    at,
                    at,
                    edit_lines_of(new_string),
                ),
                Err(_) => false,
            }
        }),
{
    shown_anchor_reads_back(line_no, lines_of(content)[line_no - 1]);
}

/// A stale anchor fails safely: where a line is gone or its tag is another one by now,
/// a replacement that names it is refused.
pub proof fn stale_anchors_refuse_a_replacement(
    lines: Seq<Seq<char>>,
    old_lines: Seq<char>,
    new_string: Seq<char>,
    anchors: Seq<(usize, Seq<char>)>,
    i: int,
)
    requires
        anchor_list_of(old_lines) == Ok::<Seq<(usize, Seq<char>)>, Seq<char>>(anchors),
        0 <= i < anchors.len(),
        anchors[i].0 > lines.len() || tag_of(lines[anchors[i].0 - 1]) != anchors[i].1,
    ensures
        replaced(lines, old_lines, new_string) is Err,
{
    lemma_failing_anchor(lines, anchors, i);
}

/// One failing anchor fails the whole check.
proof fn lemma_failing_anchor(lines: Seq<Seq<char>>, anchors: Seq<(usize, Seq<char>)>, i: int)
    requires
        0 <= i < anchors.len(),
        anchor_check(lines, anchors[i].0 as nat, anchors[i].1) is Err,
    ensures
        anchors_check(lines, anchors) is Err,
    decreases anchors.len(),
{
    if i < anchors.len() - 1 {
        lemma_failing_anchor(lines, anchors.drop_last(), i);
    }
}

/// A stale anchor fails safely: an insertion next to a line that is gone or has another
/// tag by now is refused.
pub proof fn stale_anchor_refuses_an_insertion(
    lines: Seq<Seq<char>>,
    anchor: Seq<char>,
    after: bool,
    new_string: Seq<char>,
    line_no: usize,
    tag: Seq<char>,
)
    requires
        anchor_of(anchor) == Ok::<(usize, Seq<char>), Seq<char>>((line_no, tag)),
        line_no > lines.len() || tag_of(lines[line_no - 1]) != tag,
    ensures
        inserted(lines, anchor, after, new_string) is Err,
{
}

/// An edit leaves every line outside its range as it was, and in its order.
pub proof fn edits_keep_the_other_lines(
    lines: Seq<Seq<char>>,
    from: int,
    to: int,
    new_lines: Seq<Seq<char>>,
)
    requires
        0 <= from <= to <= lines.len(),
    ensures
        spliced(lines, from, to, new_lines).len() == lines.len() - (to - from) + new_lines.len(),
        forall|i: int|
            0 <= i < from ==> #[trigger] spliced(lines, from, to, new_lines)[i] == lines[i],
        forall|i: int|
            0 <= i < new_lines.len() ==> #[trigger] spliced(lines, from, to, new_lines)[from + i]
                == new_lines[i],
        forall|i: int|
            to <= i < lines.len() ==> spliced(lines, from, to, new_lines)[i - (to - from)
                + new_lines.len()] == #[trigger] lines[i],
{
}

/// Parts joined, with the separator behind the last one too.
proof fn lemma_joined_ended_front(parts: Seq<Seq<char>>, sep: Seq<char>)
    requires
        parts.len() >= 2,
    ensures
        joined(parts, sep) + sep == parts[0] + sep + (joined(parts.drop_first(), sep) + sep),
{
    lemma_joined_front(parts, sep);
    assert(joined(parts, sep) + sep =~= parts[0] + sep + (joined(parts.drop_first(), sep) + sep));
}

/// Whether every line feed of a text has a carriage return in front, or none has.
pub open spec fn one_line_ending(s: Seq<char>) -> bool {
    has_crlf(s) ==> forall|i: int|
        0 <= i < s.len() && #[trigger] s[i] == '\n' ==> i > 0 && s[i - 1] == '\r'
}

/// Whether all line feeds of a text belong to the given line ending.
spec fn ended_by(s: Seq<char>, ending: Seq<char>) -> bool {
    if ending == "\r\n"@ {
        forall|i: int| 0 <= i < s.len() && #[trigger] s[i] == '\n' ==> i > 0 && s[i - 1] == '\r'
    } else {
        !has_crlf(s)
    }
}

/// The lines of a text with one line ending, joined again, are the text.
proof fn lemma_rejoined(s: Seq<char>, ending: Seq<char>)
    requires
        s.len() > 0,
        ending == "\r\n"@ || ending == "\n"@,
        ended_by(s, ending),
    ensures
        lines_of(s).len() > 0,
        s.last() != '\n' ==> joined(lines_of(s), ending) == s,
        s.last() == '\n' ==> joined(lines_of(s), ending) + ending == s,
    decreases s.len(),
{
    reveal_strlit("\r\n");
    reveal_strlit("\n");
    let at = index_of(s, '\n');
    lemma_index_of(s, '\n');
    if at >= s.len() {
        assert(s.last() != '\n');
        assert(joined(seq![s], ending) == s);
    } else {
        let head = without_cr(s.take(at));
        let rest = s.skip(at + 1);
        assert(s[at] == '\n');
        if ending == "\r\n"@ {
            assert(at > 0 && s[at - 1] == '\r');
            assert(head =~= s.take(at - 1));
            assert forall|i: int| 0 <= i < rest.len() && #[trigger] rest[i] == '\n' implies i > 0
                && rest[i - 1] == '\r' by {
                assert(s[i + at + 1] == '\n');
            }
        } else {
            if at > 0 {
                assert(s[at - 1] == '\r' ==> has_crlf(s));
            }
            assert(head =~= s.take(at));
            if has_crlf(rest) {
                let i = choose|i: int|
                    0 <= i < rest.len() - 1 && #[trigger] rest[i] == '\r' && rest[i + 1] == '\n';
                assert(s[i + at + 1] == '\r' && s[i + at + 1 + 1] == '\n');
            }
        }
        assert(s =~= head + ending + rest);
        if rest.len() == 0 {
            assert(lines_of(rest) =~= Seq::empty());
            assert(lines_of(s) =~= seq![head]);
            assert(joined(seq![head], ending) == head);
            assert(s =~= head + ending);
        } else {
            lemma_rejoined(rest, ending);
            let lines = lines_of(s);
            assert(lines =~= seq![head] + lines_of(rest));
            assert(lines.drop_first() =~= lines_of(rest));
            assert(rest.last() == s.last());
            lemma_joined_front(lines, ending);
            if s.last() == '\n' {
                lemma_joined_ended_front(lines, ending);
            }
        }
    }
}

/// A file whose lines all end the same way is written back as it was where its lines do
/// not change. (A text of nothing but one line ending is written back empty.)
pub proof fn unchanged_lines_keep_the_text(content: Seq<char>)
    requires
        one_line_ending(content),
        content != "\n"@,
        content != "\r\n"@,
    ensures
        file_text(lines_of(content), ending_of(content), ends_with_newline(content)) == content,
{
    reveal_strlit("\r\n");
    reveal_strlit("\n");
    let ending = ending_of(content);
    if content.len() > 0 {
        assert(ending == "\n"@ ==> ending != "\r\n"@) by {
            assert("\n"@.len() == 1 && "\r\n"@.len() == 2);
        }
        lemma_rejoined(content, ending);
        if ends_with_newline(content) && joined(lines_of(content), ending).len() == 0 {
            assert(content =~= ending);
        }
    }
}

/// Whether no line holds a line feed.
pub open spec fn are_lines(lines: Seq<Seq<char>>) -> bool {
    forall|i: int, j: int|
        0 <= i < lines.len() && 0 <= j < lines[i].len() ==> #[trigger] lines[i][j] != '\n'
}

/// Whether lines can be told from one another once they are written: with plain line
/// feeds behind them none ends with a carriage return, and the last one, where it is not
/// ended, or the only one, is not empty.
pub open spec fn stay_apart(lines: Seq<Seq<char>>, ending: Seq<char>, trailing: bool) -> bool {
    &&& ending == "\n"@ ==> forall|i: int|
        0 <= i < lines.len() && (trailing || i < lines.len() - 1) ==> without_cr(
            #[trigger] lines[i],
        ) == lines[i]
    &&& lines.len() > 0 ==> lines.last().len() > 0 || (trailing && lines.len() > 1)
}

/// The lines that are written to a file are the lines that are read back from it, where
/// they stay apart.
pub proof fn written_lines_read_back(lines: Seq<Seq<char>>, ending: Seq<char>, trailing: bool)
    requires
        ending == "\r\n"@ || ending == "\n"@,
        are_lines(lines),
        stay_apart(lines, ending, trailing),
    ensures
        lines_of(file_text(lines, ending, trailing)) == lines,
{
    reveal_strlit("\r\n");
    reveal_strlit("\n");
    if lines.len() == 0 {
        assert(joined(lines, ending) =~= Seq::empty());
        assert(lines_of(file_text(lines, ending, trailing)) =~= lines);
    } else {
        assert(joined(lines, ending).len() > 0) by {
            if lines.len() > 1 {
                lemma_joined_front(lines, ending);
            }
        }
        lemma_written_lines(lines, ending, trailing);
    }
}

/// The first line of a text that is made of lines.
proof fn lemma_first_line(line: Seq<char>, ending: Seq<char>, rest: Seq<char>)
    requires
        ending == "\r\n"@ || ending == "\n"@,
        forall|j: int| 0 <= j < line.len() ==> line[j] != '\n',
        ending == "\n"@ ==> without_cr(line) == line,
    ensures
        lines_of(line + ending + rest) == seq![line] + lines_of(rest),
{
    reveal_strlit("\r\n");
    reveal_strlit("\n");
    let s = line + ending + rest;
    let at = line.len() + ending.len() - 1;
    assert forall|j: int| 0 <= j < at implies s[j] != '\n' by {
        if j < line.len() {
            assert(s[j] == line[j]);
        } else {
            assert(s[j] == ending[j - line.len()]);
        }
    }
    assert(s[at] == ending[ending.len() - 1]);
    lemma_index_of_is(s, '\n', at);
    assert(s.skip(at + 1) =~= rest);
    if ending == "\n"@ {
        assert(s.take(at) =~= line);
    } else {
        assert(s.take(at) =~= line.push('\r'));
    }
    assert(without_cr(s.take(at)) =~= line);
}

/// Lines that are joined, and ended where `trailing` says so, are read back.
proof fn lemma_written_lines(lines: Seq<Seq<char>>, ending: Seq<char>, trailing: bool)
    requires
        lines.len() > 0,
        ending == "\r\n"@ || ending == "\n"@,
        are_lines(lines),
        ending == "\n"@ ==> forall|i: int|
            0 <= i < lines.len() && (trailing || i < lines.len() - 1) ==> without_cr(
                #[trigger] lines[i],
            ) == lines[i],
        trailing || lines.last().len() > 0,
    ensures
        lines_of(
            joined(lines, ending) + if trailing {
                ending
            } else {
                Seq::empty()
            },
        ) == lines,
    decreases lines.len(),
{
    let end = if trailing {
        ending
    } else {
        Seq::empty()
    };
    let s = joined(lines, ending) + end;
    let first = lines[0];
    assert forall|j: int| 0 <= j < first.len() implies first[j] != '\n' by {
        assert(lines[0][j] != '\n');
    }
    if lines.len() == 1 {
        if trailing {
            lemma_first_line(first, ending, Seq::empty());
            assert(s =~= first + ending + Seq::<char>::empty());
            assert(lines_of(s) =~= lines);
        } else {
            assert(s =~= first);
            lemma_index_of_is(s, '\n', s.len() as int);
            assert(lines_of(s) =~= lines);
        }
    } else {
        lemma_joined_front(lines, ending);
        let others = lines.drop_first();
        assert forall|i: int, j: int|
            0 <= i < others.len() && 0 <= j < others[i].len() implies #[trigger] others[i][j]
            != '\n' by {
            assert(others[i][j] == lines[i + 1][j]);
        }
        assert forall|i: int|
            ending == "\n"@ && 0 <= i < others.len() && (trailing || i < others.len() - 1) implies
            without_cr(#[trigger] others[i]) == others[i] by {
            assert(others[i] == lines[i + 1]);
        }
        lemma_written_lines(others, ending, trailing);
        let rest = joined(others, ending) + end;
        assert(s =~= first + ending + rest);
        lemma_first_line(first, ending, rest);
        assert(seq![first] + others =~= lines);
    }
}

/// No piece of a text holds what it was cut at.
proof fn lemma_pieces_hold_no_newline(s: Seq<char>)
    ensures
        are_lines(pieces_of(s, '\n')),
    decreases s.len(),
{
    let at = index_of(s, '\n');
    lemma_index_of(s, '\n');
    if at < s.len() {
        let rest = s.skip(at + 1);
        lemma_pieces_hold_no_newline(rest);
        let pieces = pieces_of(s, '\n');
        assert forall|i: int, j: int|
            0 <= i < pieces.len() && 0 <= j < pieces[i].len() implies #[trigger] pieces[i][j]
            != '\n' by {
            if i == 0 {
                assert(pieces[0][j] == s[j]);
            } else {
                assert(pieces[i][j] == pieces_of(rest, '\n')[i - 1][j]);
            }
        }
    }
}

/// The lines of an edited file hold no line feed.
proof fn lemma_edited_are_lines(
    content: Seq<char>,
    from: int,
    to: int,
    new_string: Seq<char>,
)
    requires
        0 <= from <= to <= lines_of(content).len(),
    ensures
        are_lines(spliced(lines_of(content), from, to, edit_lines_of(new_string))),
{
    let lines = lines_of(content);
    let new_lines = edit_lines_of(new_string);
    lemma_lines_hold_no_newline(content);
    let body = if new_string.len() > 0 && new_string.last() == '\n' {
        without_cr(new_string.drop_last())
    } else {
        new_string
    };
    let pieces = pieces_of(body, '\n');
    lemma_pieces_hold_no_newline(body);
    let all = spliced(lines, from, to, new_lines);
    assert forall|i: int, j: int|
        0 <= i < all.len() && 0 <= j < all[i].len() implies #[trigger] all[i][j] != '\n' by {
        if i < from {
            assert(all[i] == lines[i]);
            assert(lines[i][j] != '\n');
        } else if i < from + new_lines.len() {
            let piece = pieces[i - from];
            assert(all[i] == without_cr(piece));
            assert(all[i][j] == piece[j]);
            assert(pieces[i - from][j] != '\n');
        } else {
            let k = i - from - new_lines.len() + to;
            assert(all[i] == lines[k]);
            assert(lines[k][j] != '\n');
        }
    }
}

/// What an edit writes is what is read back: the lines of the edited file are those that
/// the edit made, where they stay apart.
pub proof fn edited_files_read_back(
    content: Seq<char>,
    target: EditTargetView,
    new_string: Seq<char>,
    lines: Seq<Seq<char>>,
    summary: Seq<char>,
)
    requires
        edited_lines(lines_of(content), target, new_string) == Ok::<
            (Seq<Seq<char>>, Seq<char>),
            Seq<char>,
        >((lines, summary)),
        stay_apart(lines, ending_of(content), ends_with_newline(content)),
    ensures
        lines_of(file_text(lines, ending_of(content), ends_with_newline(content))) == lines,
{
    let before = lines_of(content);
    match target {
        EditTargetView::OldLines(old_lines) => {
            let anchors = anchor_list_of(old_lines)->Ok_0;
            let last = anchors.len() - 1;
            lemma_anchor_numbers(lines_of(old_lines));
            lemma_contiguous(anchors, last);
            lemma_all_pass(before, anchors);
            assert(anchors[0].0 >= 1);
            assert(anchor_check(before, anchors[last].0 as nat, anchors[last].1) is Ok);
            lemma_edited_are_lines(
                content,
                anchors.first().0 - 1,
                anchors.last().0 as int,
                new_string,
            );
        },
        EditTargetView::InsertAfter(anchor) => {
            let line_no = (anchor_of(anchor)->Ok_0).0 as int;
            lemma_edited_are_lines(content, line_no, line_no, new_string);
        },
        EditTargetView::InsertBefore(anchor) => {
            let line_no = (anchor_of(anchor)->Ok_0).0 as int;
            lemma_edited_are_lines(content, line_no - 1, line_no - 1, new_string);
        },
    }
    written_lines_read_back(lines, ending_of(content), ends_with_newline(content));
}

/// The lines that an edit puts in place are the given text: joined by line feeds, with a
/// last one where the text ends with one, they are the text itself, character for
/// character, where it holds no carriage return.
pub proof fn new_lines_are_the_given_text(new_string: Seq<char>)
    requires
        new_string.len() > 0,
        free_of(new_string, '\r'),
    ensures
        joined(edit_lines_of(new_string), seq!['\n']) + (if new_string.last() == '\n' {
            seq!['\n']
        } else {
            Seq::empty()
        }) == new_string,
{
    let body = if new_string.last() == '\n' {
        new_string.drop_last()
    } else {
        new_string
    };
    assert(free_of(body, '\r'));
    pieces_join_to_the_text(body, '\n');
    let pieces = pieces_of(body, '\n');
    lemma_pieces_free_of(body, '\n', '\r');
    assert(without_cr(body) == body);
    assert(pieces.map_values(|piece: Seq<char>| without_cr(piece)) =~= pieces) by {
        assert forall|i: int| 0 <= i < pieces.len() implies without_cr(#[trigger] pieces[i])
            == pieces[i] by {
            assert(free_of(pieces[i], '\r'));
        }
    }
    assert(joined(edit_lines_of(new_string), seq!['\n']) + (if new_string.last() == '\n' {
        seq!['\n']
    } else {
        Seq::empty()
    }) =~= new_string);
}

/// The pieces of a text hold nothing that the text does not hold.
proof fn lemma_pieces_free_of(s: Seq<char>, sep: char, c: char)
    requires
        free_of(s, c),
    ensures
        forall|i: int|
            0 <= i < pieces_of(s, sep).len() ==> free_of(#[trigger] pieces_of(s, sep)[i], c),
    decreases s.len(),
{
    let at = index_of(s, sep);
    lemma_index_of(s, sep);
    if at < s.len() {
        let rest = s.skip(at + 1);
        lemma_pieces_free_of(rest, sep, c);
        assert forall|i: int| 0 <= i < pieces_of(s, sep).len() implies free_of(
            #[trigger] pieces_of(s, sep)[i],
            c,
        ) by {
            if i > 0 {
                assert(pieces_of(s, sep)[i] == pieces_of(rest, sep)[i - 1]);
            }
        }
    }
}

/// The text of an edit is cut line by line: up to the first line feed, less a carriage
/// return in front of it, and then what follows. What follows no line feed is a line too,
/// less a carriage return at its end, and an empty text is none. The last line feed is an
/// end and not the start of another line; there up to two carriage returns go with it.
pub proof fn new_lines_are_cut_one_by_one(line: Seq<char>, rest: Seq<char>)
    requires
        free_of(line, '\n'),
    ensures
        rest.len() > 0 ==> edit_lines_of(line + seq!['\n'] + rest) == seq![without_cr(line)]
            + edit_lines_of(rest),
        line.len() > 0 ==> edit_lines_of(line) == seq![without_cr(line)],
        edit_lines_of(line + seq!['\n']) == seq![without_cr(without_cr(line))],
        edit_lines_of(Seq::empty()).len() == 0,
{
    let strip = |piece: Seq<char>| without_cr(piece);
    if rest.len() > 0 {
        let s = line + seq!['\n'] + rest;
        assert(s.last() == rest.last());
        let body = if rest.last() == '\n' {
            without_cr(rest.drop_last())
        } else {
            rest
        };
        if rest.last() == '\n' {
            let cut = s.drop_last();
            assert(cut =~= line + seq!['\n'] + rest.drop_last());
            if rest.len() == 1 {
                assert(cut =~= line + seq!['\n']);
                assert(cut.last() == '\n');
                assert(body =~= Seq::empty());
                assert(without_cr(cut) =~= line + seq!['\n'] + body);
            } else {
                assert(cut.last() == rest.drop_last().last());
                assert(without_cr(cut) =~= line + seq!['\n'] + body);
            }
        }
        let whole = line + seq!['\n'] + body;
        lemma_index_of_is(whole, '\n', line.len() as int);
        assert(whole.take(line.len() as int) =~= line);
        assert(whole.skip(line.len() as int + 1) =~= body);
        assert(edit_lines_of(s) =~= pieces_of(whole, '\n').map_values(strip));
        assert(edit_lines_of(s) =~= seq![without_cr(line)] + edit_lines_of(rest));
    }
    if line.len() > 0 {
        lemma_index_of_is(line, '\n', line.len() as int);
        assert(edit_lines_of(line) =~= seq![without_cr(line)]);
    }
    let ended = line + seq!['\n'];
    assert(ended.drop_last() =~= line);
    lemma_index_of_is(without_cr(line), '\n', without_cr(line).len() as int);
    assert(edit_lines_of(ended) =~= seq![without_cr(without_cr(line))]);
}

/// Only an empty text has no lines.
proof fn lemma_some_new_lines(new_string: Seq<char>)
    requires
        new_string.len() > 0,
    ensures
        edit_lines_of(new_string).len() > 0,
{
    let body = if new_string.last() == '\n' {
        without_cr(new_string.drop_last())
    } else {
        new_string
    };
    pieces_join_to_the_text(body, '\n');
}

/// An anchor passes exactly where its line is there and has its tag.
pub proof fn anchors_pass_where_their_line_has_their_tag(
    lines: Seq<Seq<char>>,
    line_no: nat,
    tag: Seq<char>,
)
    requires
        line_no >= 1,
    ensures
        anchor_check(lines, line_no, tag) is Ok <==> line_no <= lines.len() && tag_of(
            lines[line_no - 1],
        ) == tag,
{
}

/// The lines that a refusal points to are those with the tag, in increasing order.
pub proof fn lines_with_a_tag_are_found(lines: Seq<Seq<char>>, tag: Seq<char>)
    ensures
        forall|k: nat|
            #[trigger] tagged_lines(lines, tag).contains(k) <==> 1 <= k <= lines.len() && tag_of(
                lines[k - 1],
            ) == tag,
        forall|i: int, j: int|
            0 <= i < j < tagged_lines(lines, tag).len() ==> #[trigger] tagged_lines(lines, tag)[i]
                < #[trigger] tagged_lines(lines, tag)[j],
    decreases lines.len(),
{
    if lines.len() > 0 {
        let fewer = lines.drop_last();
        let before = tagged_lines(fewer, tag);
        lines_with_a_tag_are_found(fewer, tag);
        let found = tagged_lines(lines, tag);
        assert forall|k: nat| #[trigger] found.contains(k) <==> 1 <= k <= lines.len() && tag_of(
            lines[k - 1],
        ) == tag by {
            assert(before.contains(k) <==> 1 <= k <= fewer.len() && tag_of(fewer[k - 1]) == tag);
            if tag_of(lines.last()) == tag {
                assert(found[before.len() as int] == lines.len());
                if before.contains(k) {
                    let i = choose|i: int| 0 <= i < before.len() && before[i] == k;
                    assert(found[i] == k);
                }
                if found.contains(k) {
                    let i = choose|i: int| 0 <= i < found.len() && found[i] == k;
                    if i < before.len() {
                        assert(before[i] == k);
                    }
                }
            }
        }
        assert forall|i: int, j: int| 0 <= i < j < found.len() implies #[trigger] found[i]
            < #[trigger] found[j] by {
            if tag_of(lines.last()) == tag && j == before.len() {
                assert(before.contains(before[i]));
            }
        }
    }
}

/// Whether anchors name lines that follow one another and that have their tags.
pub open spec fn name_a_range(lines: Seq<Seq<char>>, anchors: Seq<(usize, Seq<char>)>) -> bool {
    forall|i: int|
        0 <= i < anchors.len() ==> (#[trigger] anchors[i]).0 == anchors[0].0 + i && 1
            <= anchors[i].0 <= lines.len() && tag_of(lines[anchors[i].0 - 1]) == anchors[i].1
}

/// Whether `result` is `lines` with the `count` lines from index `at` on taken out and
/// `new_lines` in their place.
pub open spec fn stand_in_place(
    result: Seq<Seq<char>>,
    lines: Seq<Seq<char>>,
    at: int,
    count: int,
    new_lines: Seq<Seq<char>>,
) -> bool {
    &&& 0 <= at
    &&& 0 <= count
    &&& at + count <= lines.len()
    &&& result.len() == lines.len() - count + new_lines.len()
    &&& result.take(at) == lines.take(at)
    &&& result.subrange(at, at + new_lines.len()) == new_lines
    &&& result.skip(at + new_lines.len()) == lines.skip(at + count)
}

proof fn lemma_spliced_in_place(
    lines: Seq<Seq<char>>,
    at: int,
    count: int,
    new_lines: Seq<Seq<char>>,
)
    requires
        0 <= at,
        0 <= count,
        at + count <= lines.len(),
    ensures
        stand_in_place(spliced(lines, at, at + count, new_lines), lines, at, count, new_lines),
{
    let result = spliced(lines, at, at + count, new_lines);
    assert(result.take(at) =~= lines.take(at));
    assert(result.subrange(at, at + new_lines.len()) =~= new_lines);
    assert(result.skip(at + new_lines.len()) =~= lines.skip(at + count));
}

/// Anchors that are accepted name a range, and those that name one are accepted.
proof fn lemma_range_is_accepted(lines: Seq<Seq<char>>, anchors: Seq<(usize, Seq<char>)>)
    requires
        forall|i: int| 0 <= i < anchors.len() ==> (#[trigger] anchors[i]).0 >= 1,
    ensures
        contiguous(anchors) && anchors_check(lines, anchors) is Ok <==> name_a_range(
            lines,
            anchors,
        ),
{
    if contiguous(anchors) && anchors_check(lines, anchors) is Ok {
        lemma_all_pass(lines, anchors);
        assert forall|i: int| 0 <= i < anchors.len() implies (#[trigger] anchors[i]).0
            == anchors[0].0 + i && 1 <= anchors[i].0 <= lines.len() && tag_of(
            lines[anchors[i].0 - 1],
        ) == anchors[i].1 by {
            lemma_contiguous(anchors, i);
            assert(anchor_check(lines, anchors[i].0 as nat, anchors[i].1) is Ok);
        }
    }
    if name_a_range(lines, anchors) {
        assert forall|i: int| 0 <= i < anchors.len() - 1 implies (#[trigger] anchors[i]).0 + 1
            == anchors[i + 1].0 by {
            assert(anchors[i + 1].0 == anchors[0].0 + (i + 1));
        }
        lemma_fresh_pass(lines, anchors);
    }
}

/// A replacement is done exactly where its anchors name lines that follow one another and
/// that have their tags, and then the new lines stand in the place of just those lines.
pub proof fn replacements_go_where_their_anchors_say(
    lines: Seq<Seq<char>>,
    old_lines: Seq<char>,
    new_string: Seq<char>,
    anchors: Seq<(usize, Seq<char>)>,
)
    requires
        anchor_list_of(old_lines) == Ok::<Seq<(usize, Seq<char>)>, Seq<char>>(anchors),
    ensures
        anchors.len() > 0,
        replaced(lines, old_lines, new_string) is Ok <==> name_a_range(lines, anchors),
        replaced(lines, old_lines, new_string) matches Ok((result, _)) ==> stand_in_place(
            result,
            lines,
            anchors[0].0 - 1,
            anchors.len() as int,
            edit_lines_of(new_string),
        ),
{
    lemma_anchor_numbers(lines_of(old_lines));
    lemma_range_is_accepted(lines, anchors);
    if name_a_range(lines, anchors) {
        let last = anchors.len() - 1;
        assert(anchors[last].0 == anchors[0].0 + last);
        lemma_spliced_in_place(
            lines,
            anchors[0].0 - 1,
            anchors.len() as int,
            edit_lines_of(new_string),
        );
    }
}

/// Anchors whose lines have their tags pass the check.
proof fn lemma_fresh_pass(lines: Seq<Seq<char>>, anchors: Seq<(usize, Seq<char>)>)
    requires
        forall|i: int|
            0 <= i < anchors.len() ==> 1 <= (#[trigger] anchors[i]).0 <= lines.len() && tag_of(
                lines[anchors[i].0 - 1],
            ) == anchors[i].1,
    ensures
        anchors_check(lines, anchors) is Ok,
    decreases anchors.len(),
{
    if anchors.len() > 0 {
        let fewer = anchors.drop_last();
        assert forall|i: int| 0 <= i < fewer.len() implies 1 <= (#[trigger] fewer[i]).0
            <= lines.len() && tag_of(lines[fewer[i].0 - 1]) == fewer[i].1 by {
            assert(fewer[i] == anchors[i]);
        }
        lemma_fresh_pass(lines, fewer);
        assert(anchors[anchors.len() - 1].0 >= 1);
    }
}

/// An insertion is done exactly where its anchor's line has the anchor's tag and there is
/// something to insert, and then the new lines stand right after or right before that
/// line, with all other lines around them.
pub proof fn insertions_go_where_their_anchor_says(
    lines: Seq<Seq<char>>,
    anchor: Seq<char>,
    after: bool,
    new_string: Seq<char>,
    line_no: usize,
    tag: Seq<char>,
)
    requires
        anchor_of(anchor) == Ok::<(usize, Seq<char>), Seq<char>>((line_no, tag)),
    ensures
        line_no >= 1,
        inserted(lines, anchor, after, new_string) is Ok <==> line_no <= lines.len() && tag_of(
            lines[line_no - 1],
        ) == tag && new_string.len() > 0,
        inserted(lines, anchor, after, new_string) matches Ok((result, _)) ==> stand_in_place(
            result,
            lines,
            if after {
                line_no as int
            } else {
                line_no - 1
            },
            0,
            edit_lines_of(new_string),
        ),
{
    if new_string.len() > 0 {
        lemma_some_new_lines(new_string);
    }
    let at = if after {
        line_no as int
    } else {
        line_no - 1
    };
    if inserted(lines, anchor, after, new_string) is Ok {
        lemma_spliced_in_place(lines, at, 0, edit_lines_of(new_string));
    }
}

/// An edited file is refused or done as its lines are, holds the lines that the edit made,
/// and keeps its line ending and whether its last line is ended.
pub proof fn edited_files_keep_their_endings(
    content: Seq<char>,
    target: EditTargetView,
    new_string: Seq<char>,
    lines: Seq<Seq<char>>,
    summary: Seq<char>,
)
    requires
        edited_lines(lines_of(content), target, new_string) == Ok::<
            (Seq<Seq<char>>, Seq<char>),
            Seq<char>,
        >((lines, summary)),
    ensures
        edited_file(content, target, new_string) matches Ok((text, told)) && {
            let crlf = exists|i: int|
                0 <= i < content.len() - 1 && #[trigger] content[i] == '\r' && content[i + 1]
                    == '\n';
            let ending = if crlf {
                seq!['\r', '\n']
            } else {
                seq!['\n']
            };
            let ended = content.len() > 0 && content.last() == '\n';
            &&& told == summary
            &&& text == joined(lines, ending) + (if ended && joined(lines, ending).len() > 0 {
                ending
            } else {
                Seq::empty()
            })
            &&& stay_apart(lines, ending, ended) ==> lines_of(text) == lines
        },
{
    reveal_strlit("\r\n");
    reveal_strlit("\n");
    let ending = ending_of(content);
    assert("\r\n"@ =~= seq!['\r', '\n']);
    assert("\n"@ =~= seq!['\n']);
    let text = file_text(lines, ending, ends_with_newline(content));
    assert(joined(lines, ending) + Seq::<char>::empty() =~= joined(lines, ending));
    if stay_apart(lines, ending, ends_with_newline(content)) {
        edited_files_read_back(content, target, new_string, lines, summary);
    }
}

/// An anchor is read whatever white space stands around its parts and whatever follows
/// behind a vertical bar.
pub proof fn anchors_are_read_with_space_around(
    line_no: usize,
    tag: Seq<char>,
    a: Seq<char>,
    b: Seq<char>,
    c: Seq<char>,
    d: Seq<char>,
    rest: Seq<char>,
)
    requires
        line_no >= 1,
        tag.len() > 0,
        !is_white_space(tag[0]),
        !is_white_space(tag.last()),
        free_of(tag, '|'),
        is_blank(a),
        is_blank(b),
        is_blank(c),
        is_blank(d),
    ensures
        ({
            let text = a + (decimal(line_no as nat) + b + seq![':'] + c + tag) + d;
            &&& anchor_of(text) == Ok::<(usize, Seq<char>), Seq<char>>((line_no, tag))
            &&& anchor_of(text + seq!['|'] + rest) == Ok::<(usize, Seq<char>), Seq<char>>(
                (line_no, tag),
            )
        }),
{
    let number = decimal(line_no as nat);
    lemma_decimal(line_no as nat);
    decimal_reads_back(line_no);
    let prefix = number + b + seq![':'] + c + tag;
    let text = a + prefix + d;
    assert forall|i: int| 0 <= i < number.len() implies is_digit(#[trigger] number[i]) by {
    }
    assert(prefix[0] == number[0]);
    assert(is_digit(number[0]));
    assert(prefix.last() == tag.last());
    surrounding_white_space_goes(a, prefix, d);
    assert(free_of(text, '|')) by {
        assert forall|i: int| 0 <= i < text.len() implies text[i] != '|' by {
            if i < a.len() {
                assert(is_white_space(a[i]));
            } else if i < a.len() + number.len() {
                assert(is_digit(number[i - a.len()]));
            } else if i < a.len() + number.len() + b.len() {
                assert(is_white_space(b[i - a.len() - number.len()]));
            } else if i == a.len() + number.len() + b.len() {
            } else if i < a.len() + number.len() + b.len() + 1 + c.len() {
                assert(is_white_space(c[i - a.len() - number.len() - b.len() - 1]));
            } else if i < a.len() + prefix.len() {
                assert(text[i] == tag[i - a.len() - number.len() - b.len() - 1 - c.len()]);
            } else {
                assert(is_white_space(d[i - a.len() - prefix.len()]));
            }
        }
    }
    lemma_index_of_is(text, '|', text.len() as int);
    assert(text.take(text.len() as int) =~= text);
    let whole = text + seq!['|'] + rest;
    lemma_index_of_is(whole, '|', text.len() as int);
    assert(whole.take(text.len() as int) =~= text);
    let at = (number.len() + b.len()) as int;
    assert forall|i: int| 0 <= i < at implies prefix[i] != ':' by {
        if i < number.len() {
            assert(is_digit(number[i]));
        } else {
            assert(is_white_space(b[i - number.len()]));
        }
    }
    lemma_index_of_is(prefix, ':', at);
    surrounding_white_space_goes(Seq::empty(), number, b);
    assert(Seq::<char>::empty() + number + b =~= prefix.take(at));
    surrounding_white_space_goes(c, tag, Seq::empty());
    assert(c + tag + Seq::<char>::empty() =~= prefix.skip(at + 1));
}

/// An anchor that is read has a line number from one up and a tag, and a text without a
/// colon is none.
pub proof fn anchors_have_a_number_and_a_tag(value: Seq<char>)
    ensures
        anchor_of(value) matches Ok((line_no, tag)) ==> line_no >= 1 && tag.len() > 0,
        free_of(value, ':') ==> anchor_of(value) is Err,
{
    if free_of(value, ':') {
        let at = index_of(value, '|');
        lemma_index_of(value, '|');
        let cut = value.take(at);
        trimming_takes_white_space_only(cut);
        let prefix = trimmed(cut);
        assert(free_of(prefix, ':'));
        lemma_index_of(prefix, ':');
        assert(index_of(prefix, ':') >= prefix.len());
    }
}

/// Whether a row shows the line with number `k` of `lines` under its anchor: the number,
/// the tag of the line and its content, which reads as an anchor that passes the check.
pub open spec fn shows_line(row: Seq<char>, lines: Seq<Seq<char>>, k: int) -> bool {
    let line = lines[k - 1];
    &&& 1 <= k <= lines.len()
    &&& row == without_cr(decimal(k as nat) + seq![':'] + tag_of(line) + seq!['|'] + line)
    &&& anchor_of(row) == Ok::<(usize, Seq<char>), Seq<char>>((k as usize, tag_of(line)))
    &&& anchor_check(lines, k as nat, tag_of(line)) is Ok
}

/// The rows of a listing that shows `count` lines from index `start` on.
proof fn lemma_listing_rows(lines: Seq<Seq<char>>, start: nat, count: nat, trailer: Seq<char>)
    requires
        lines.len() <= usize::MAX,
        start + count <= lines.len(),
        forall|i: int, j: int|
            0 <= i < lines.len() && 0 <= j < lines[i].len() ==> #[trigger] lines[i][j] != '\n',
        trailer.len() > 0,
        free_of(trailer, '\n'),
    ensures
        ({
            let rows = lines_of(joined(anchored_lines(lines, start, count).push(trailer), "\n"@));
            &&& rows.len() == count + 1
            &&& rows.last() == trailer
            &&& forall|i: int|
                0 <= i < count ==> shows_line(#[trigger] rows[i], lines, start + i + 1)
        }),
{
    let all = anchored_lines(lines, start, count).push(trailer);
    assert forall|i: int, j: int| 0 <= i < all.len() && 0 <= j < all[i].len() implies
        #[trigger] all[i][j] != '\n' by {
        if i < count {
            lemma_anchored_line_holds_no_newline((start + i + 1) as usize, lines[start + i]);
        }
    }
    lemma_lines_of_joined(all);
    let rows = lines_of(joined(all, "\n"@));
    assert forall|i: int| 0 <= i < count implies shows_line(
        #[trigger] rows[i],
        lines,
        start + i + 1,
    ) by {
        let line = lines[start + i];
        reveal_strlit(":");
        reveal_strlit("|");
        assert(all[i] == anchored_line((start + i + 1) as nat, line));
        assert(":"@ =~= seq![':']);
        assert("|"@ =~= seq!['|']);
        assert(rows[i] == without_cr(all[i]));
        lemma_row_reads((start + i + 1) as usize, line, rows[i]);
    }
}

proof fn lemma_anchored_line_holds_no_newline(line_no: usize, line: Seq<char>)
    requires
        line_no >= 1,
        free_of(line, '\n'),
    ensures
        free_of(anchored_line(line_no as nat, line), '\n'),
{
    reveal_strlit("|");
    lemma_anchor_part(line_no, line, line);
    let head = decimal(line_no as nat) + ":"@ + tag_of(line);
    lemma_free_concat(head, "|"@);
    lemma_free_concat(head + "|"@, line);
}

/// The last row of a listing.
pub open spec fn listing_trailer(total: nat, first: nat, last: nat) -> Seq<char> {
    "["@ + decimal(total) + " lines total, showing lines "@ + decimal(first) + "-"@ + decimal(last)
        + "; edit anchors are line:tag]"@
}

proof fn lemma_trailer(total: nat, first: nat, last: nat)
    ensures
        free_of(listing_trailer(total, first, last), '\n'),
        listing_trailer(total, first, last).len() > 0,
{
    reveal_strlit("[");
    reveal_strlit(" lines total, showing lines ");
    reveal_strlit("-");
    reveal_strlit("; edit anchors are line:tag]");
    lemma_decimal(total);
    lemma_decimal(first);
    lemma_decimal(last);
    let a = "["@;
    let b = decimal(total);
    let c = " lines total, showing lines "@;
    let d = decimal(first);
    let e = "-"@;
    let f = decimal(last);
    let g = "; edit anchors are line:tag]"@;
    lemma_free_concat(a, b);
    lemma_free_concat(a + b, c);
    lemma_free_concat(a + b + c, d);
    lemma_free_concat(a + b + c + d, e);
    lemma_free_concat(a + b + c + d + e, f);
    lemma_free_concat(a + b + c + d + e + f, g);
}

/// A listing shows each line under its own anchor, for every offset and limit: the row at
/// position `i` shows the line whose number is `i` more than the one where the listing
/// starts, so the anchor in it passes the check. It starts at the first line where no
/// other is asked for, and shows all lines from there on, or as many as the limit allows.
/// A last row tells how many lines there are and which are shown.
pub proof fn listings_show_each_line_under_its_anchor(
    content: Seq<char>,
    offset: Option<u64>,
    limit: Option<u64>,
)
    requires
        lines_of(content).len() <= usize::MAX,
        offset matches Some(n) ==> n <= usize::MAX,
        limit matches Some(n) ==> n <= usize::MAX,
    ensures
        ({
            let lines = lines_of(content);
            let first: int = match offset {
                Some(n) => if n > 0 {
                    n as int
                } else {
                    1
                },
                None => 1,
            };
            let left: int = if first > lines.len() {
                0
            } else {
                lines.len() - first + 1
            };
            let shown: int = match limit {
                Some(n) => if n < left {
                    n as int
                } else {
                    left
                },
                None => left,
            };
            let listing = listing_of(content, offset, limit);
            let rows = lines_of(listing);
            if lines.len() == 0 {
                listing == "[empty file]"@
            } else if shown == 0 {
                listing == "[no lines in range]"@
            } else {
                &&& rows.len() == shown + 1
                &&& forall|i: int|
                    0 <= i < shown ==> shows_line(#[trigger] rows[i], lines, first + i)
                &&& rows.last() == listing_trailer(
                    lines.len(),
                    first as nat,
                    (first + shown - 1) as nat,
                )
            }
        }),
{
    let lines = lines_of(content);
    let start = listing_start(lines.len(), offset);
    let count = listing_count((lines.len() - start) as nat, limit);
    if lines.len() > 0 && count > 0 {
        let trailer = listing_trailer(lines.len(), start + 1, start + count);
        lemma_trailer(lines.len(), start + 1, start + count);
        lemma_lines_hold_no_newline(content);
        lemma_listing_rows(lines, start, count, trailer);
        let parts = anchored_lines(lines, start, count);
        lemma_listing_joined(parts, lines.len(), start + 1, start + count);
    }
}

proof fn lemma_listing_joined(parts: Seq<Seq<char>>, total: nat, first: nat, last: nat)
    requires
        parts.len() > 0,
    ensures
        joined(parts.push(listing_trailer(total, first, last)), "\n"@) == joined(parts, "\n"@)
            + "\n["@ + decimal(total) + " lines total, showing lines "@ + decimal(first) + "-"@
            + decimal(last) + "; edit anchors are line:tag]"@,
{
    reveal_strlit("\n");
    reveal_strlit("\n[");
    reveal_strlit("[");
    assert("\n"@ + "["@ =~= "\n["@);
    let all = parts.push(listing_trailer(total, first, last));
    assert(all.drop_last() =~= parts);
    let t = joined(parts, "\n"@);
    assert(joined(all, "\n"@) == t + "\n"@ + listing_trailer(total, first, last));
    assert(t + "\n"@ + listing_trailer(total, first, last) =~= t + ("\n"@ + "["@) + decimal(total)
        + " lines total, showing lines "@ + decimal(first) + "-"@ + decimal(last)
        + "; edit anchors are line:tag]"@);
}

/// A row of a listing reads as its anchor.
proof fn lemma_row_reads(line_no: usize, line: Seq<char>, row: Seq<char>)
    requires
        line_no >= 1,
        row == without_cr(anchored_line(line_no as nat, line)),
    ensures
        anchor_of(row) == Ok::<(usize, Seq<char>), Seq<char>>((line_no, tag_of(line))),
{
    reveal_strlit("|");
    let head = decimal(line_no as nat) + ":"@ + tag_of(line);
    lemma_anchor_part(line_no, line, without_cr(line));
    let whole = anchored_line(line_no as nat, line);
    if line.len() > 0 {
        assert(whole.last() == line.last());
    } else {
        assert(whole.last() == '|');
    }
    assert(row =~= head + "|"@ + without_cr(line));
}

/// Texts without line feeds make one without any.
proof fn lemma_free_concat(a: Seq<char>, b: Seq<char>)
    requires
        free_of(a, '\n'),
        free_of(b, '\n'),
    ensures
        free_of(a + b, '\n'),
{
}

/// Numbers that differ modulo 2^24 still do so times the factor of the hash.
proof fn lemma_factor(x: int, y: int)
    requires
        (x * 0x01000193) % 0x0100_0000 == (y * 0x01000193) % 0x0100_0000,
    ensures
        x % 0x0100_0000 == y % 0x0100_0000,
{
    let m: int = 0x0100_0000;
    let k: int = 0x01000193;
    let inverse: int = 10241179;
    let q: int = 10241425;
    assert(k * inverse == 1 + m * q);
    let u = (x * k) / m;
    let v = (y * k) / m;
    let r = (x * k) % m;
    assert(x * k == m * u + r);
    assert(y * k == m * v + r);
    assert((x - y) * k == m * (u - v)) by (nonlinear_arith)
        requires
            x * k == m * u + r,
            y * k == m * v + r,
    ;
    assert((x - y) == m * ((u - v) * inverse - (x - y) * q)) by (nonlinear_arith)
        requires
            (x - y) * k == m * (u - v),
            k * inverse == 1 + m * q,
    ;
    let w = (u - v) * inverse - (x - y) * q;
    assert(x == m * w + y);
    vstd::arithmetic::div_mod::lemma_mod_multiples_vanish(w, y, m);
}

/// The low bits of the hash of bytes with one more tell the bits before and the byte.
proof fn lemma_hash_step(g: u32, h: u32, a: u8, b: u8)
    requires
        g & 0x00ff_ffff != h & 0x00ff_ffff ==> a == b,
        g & 0x00ff_ffff != h & 0x00ff_ffff || (g & 0x00ff_ffff == h & 0x00ff_ffff && a != b),
    ensures
        (g ^ a as u32).wrapping_mul(0x01000193) & 0x00ff_ffff != (h ^ b as u32).wrapping_mul(
            0x01000193,
        ) & 0x00ff_ffff,
{
    let x: u32 = g ^ a as u32;
    let y: u32 = h ^ b as u32;
    assert(x & 0x00ff_ffff != y & 0x00ff_ffff) by (bit_vector)
        requires
            x == g ^ a as u32,
            y == h ^ b as u32,
            g & 0x00ff_ffff != h & 0x00ff_ffff ==> a == b,
            g & 0x00ff_ffff != h & 0x00ff_ffff || (g & 0x00ff_ffff == h & 0x00ff_ffff && a != b),
    ;
    let p = x.wrapping_mul(0x01000193);
    let q = y.wrapping_mul(0x01000193);
    lemma_low_bits(x);
    lemma_low_bits(y);
    lemma_low_bits(p);
    lemma_low_bits(q);
    let xi = x as int;
    let yi = y as int;
    assert(p as int == (xi * 0x01000193) % 0x1_0000_0000);
    assert(q as int == (yi * 0x01000193) % 0x1_0000_0000);
    lemma_mod_twice(xi * 0x01000193);
    lemma_mod_twice(yi * 0x01000193);
    if p & 0x00ff_ffff == q & 0x00ff_ffff {
        lemma_factor(xi, yi);
    }
}

/// The low 24 of 32 bits are the low 24 of all.
proof fn lemma_mod_twice(n: int)
    ensures
        (n % 0x1_0000_0000) % 0x0100_0000 == n % 0x0100_0000,
{
    vstd::arithmetic::div_mod::lemma_mod_mod(n, 0x0100_0000, 256);
}

/// The low 24 bits as a remainder.
proof fn lemma_low_bits(x: u32)
    ensures
        (x & 0x00ff_ffff) as int == x as int % 0x0100_0000,
{
    assert(x & 0x00ff_ffff == x % 0x0100_0000) by (bit_vector);
}

/// Bytes that differ in one place hash to different low bits.
proof fn lemma_hashes_differ(front: Seq<u8>, a: u8, b: u8, back: Seq<u8>)
    requires
        a != b,
    ensures
        fnv1a(front.push(a) + back) & 0x00ff_ffff != fnv1a(front.push(b) + back) & 0x00ff_ffff,
    decreases back.len(),
{
    let x = front.push(a) + back;
    let y = front.push(b) + back;
    if back.len() == 0 {
        assert(x.drop_last() =~= front);
        assert(y.drop_last() =~= front);
        lemma_hash_step(fnv1a(front), fnv1a(front), a, b);
    } else {
        assert(x.drop_last() =~= front.push(a) + back.drop_last());
        assert(y.drop_last() =~= front.push(b) + back.drop_last());
        lemma_hashes_differ(front, a, b, back.drop_last());
        lemma_hash_step(
            fnv1a(x.drop_last()),
            fnv1a(y.drop_last()),
            back.last(),
            back.last(),
        );
    }
}

/// A tag notices every change of one byte: two lines whose bytes differ in exactly one
/// place have different tags, wherever that is.
pub proof fn tags_notice_every_change_of_one_byte(
    line: Seq<char>,
    other: Seq<char>,
    front: Seq<u8>,
    a: u8,
    b: u8,
    back: Seq<u8>,
)
    requires
        a != b,
        encode_utf8(line) == front.push(a) + back,
        encode_utf8(other) == front.push(b) + back,
    ensures
        tag_of(line) != tag_of(other),
{
    lemma_hashes_differ(front, a, b, back);
    let x = fnv1a(encode_utf8(line)) & 0x00ff_ffff;
    let y = fnv1a(encode_utf8(other)) & 0x00ff_ffff;
    let tag = tag_of(line);
    let changed = tag_of(other);
    if tag == changed {
        assert(tag[0] == changed[0] && tag[1] == changed[1] && tag[2] == changed[2] && tag[3]
            == changed[3]);
        assert((x >> 18) & 0x3f < 64 && (x >> 12) & 0x3f < 64 && (x >> 6) & 0x3f < 64 && x & 0x3f
            < 64) by (bit_vector);
        assert((y >> 18) & 0x3f < 64 && (y >> 12) & 0x3f < 64 && (y >> 6) & 0x3f < 64 && y & 0x3f
            < 64) by (bit_vector);
        lemma_tag_chars((x >> 18) & 0x3f, (y >> 18) & 0x3f);
        lemma_tag_chars((x >> 12) & 0x3f, (y >> 12) & 0x3f);
        lemma_tag_chars((x >> 6) & 0x3f, (y >> 6) & 0x3f);
        lemma_tag_chars(x & 0x3f, y & 0x3f);
        let f = fnv1a(encode_utf8(line));
        let g = fnv1a(encode_utf8(other));
        assert(x == y) by (bit_vector)
            requires
                x == f & 0x00ff_ffff,
                y == g & 0x00ff_ffff,
                (x >> 18) & 0x3f == (y >> 18) & 0x3f,
                (x >> 12) & 0x3f == (y >> 12) & 0x3f,
                (x >> 6) & 0x3f == (y >> 6) & 0x3f,
                x & 0x3f == y & 0x3f,
        ;
    }
}

/// Different numbers have different letters.
proof fn lemma_tag_chars(i: u32, j: u32)
    requires
        i < 64,
        j < 64,
        tag_char(i) == tag_char(j),
    ensures
        i == j,
{
}

} // verus!
