//! Anchored edits of a file's text.

use vstd::prelude::*;
use crate::anchor::{
    anchor_check, anchor_list_of, anchor_of, anchor_view, anchors_of, edit_lines, edit_lines_of,
    parse_anchor, parse_anchor_list, verify_anchor,
};
use crate::number::{decimal, push_decimal};
use crate::text::{chars_of, join, joined, lines_of, split_lines, views};

verus! {

broadcast use vstd::seq::group_seq_axioms;

/// Where an edit goes: in place of anchored lines, or next to one anchored line.
#[derive(Debug)]
pub enum EditTarget {
    OldLines(String),
    InsertAfter(String),
    InsertBefore(String),
}

pub enum EditTargetView {
    OldLines(Seq<char>),
    InsertAfter(Seq<char>),
    InsertBefore(Seq<char>),
}

impl View for EditTarget {
    type V = EditTargetView;

    open spec fn view(&self) -> EditTargetView {
        match *self {
            EditTarget::OldLines(text) => EditTargetView::OldLines(text@),
            EditTarget::InsertAfter(text) => EditTargetView::InsertAfter(text@),
            EditTarget::InsertBefore(text) => EditTargetView::InsertBefore(text@),
        }
    }
}

/// What an edit makes of a file: its new text and what was done.
#[derive(Debug)]
pub struct Edited {
    pub content: String,
    pub summary: String,
}

/// Whether a text holds a carriage return followed by a line feed.
pub open spec fn has_crlf(s: Seq<char>) -> bool {
    exists|i: int| 0 <= i < s.len() - 1 && #[trigger] s[i] == '\r' && s[i + 1] == '\n'
}

/// The line ending that a file is written back with.
pub open spec fn ending_of(content: Seq<char>) -> Seq<char> {
    if has_crlf(content) {
        "\r\n"@
    } else {
        "\n"@
    }
}

/// Whether a text ends with a line feed.
pub open spec fn ends_with_newline(content: Seq<char>) -> bool {
    content.len() > 0 && content.last() == '\n'
}

/// The text of a file with given lines. The last line is ended too where `trailing`
/// says so, except in an empty text.
pub open spec fn file_text(lines: Seq<Seq<char>>, ending: Seq<char>, trailing: bool) -> Seq<char> {
    let text = joined(lines, ending);
    if trailing && text.len() > 0 {
        text + ending
    } else {
        text
    }
}

/// The lines with those from index `from` up to `to` replaced.
pub open spec fn spliced(
    lines: Seq<Seq<char>>,
    from: int,
    to: int,
    new_lines: Seq<Seq<char>>,
) -> Seq<Seq<char>> {
    lines.take(from) + new_lines + lines.skip(to)
}

/// Whether anchors name lines that follow one another.
pub open spec fn contiguous(anchors: Seq<(usize, Seq<char>)>) -> bool {
    forall|i: int| 0 <= i < anchors.len() - 1 ==> (#[trigger] anchors[i]).0 + 1 == anchors[i + 1].0
}

/// Whether every anchor's line has the anchor's tag, or the message of the first that
/// has not.
pub open spec fn anchors_check(
    lines: Seq<Seq<char>>,
    anchors: Seq<(usize, Seq<char>)>,
) -> Result<(), Seq<char>>
    decreases anchors.len(),
{
    if anchors.len() == 0 {
        Ok(())
    } else {
        match anchors_check(lines, anchors.drop_last()) {
            Err(e) => Err(e),
            Ok(()) => anchor_check(lines, anchors.last().0 as nat, anchors.last().1),
        }
    }
}

/// The new lines and the summary of an insertion next to the line of an anchor.
pub open spec fn inserted(
    lines: Seq<Seq<char>>,
    anchor: Seq<char>,
    after: bool,
    new_string: Seq<char>,
) -> Result<(Seq<Seq<char>>, Seq<char>), Seq<char>> {
    match anchor_of(anchor) {
        Err(e) => Err(e),
        Ok((line_no, tag)) => match anchor_check(lines, line_no as nat, tag) {
            Err(e) => Err(e),
            Ok(()) => {
                let new_lines = edit_lines_of(new_string);
                let at = if after {
                    line_no as int
                } else {
                    line_no - 1
                };
                let side = if after {
                    " line(s) after line "@
                } else {
                    " line(s) before line "@
                };
                if new_lines.len() == 0 {
                    Err("Error: new_string is empty; nothing to insert"@)
                } else {
                    Ok(
                        (
                            spliced(lines, at, at, new_lines),
                            "Inserted "@ + decimal(new_lines.len()) + side + decimal(
                                line_no as nat,
                            ),
                        ),
                    )
                }
            },
        },
    }
}

/// The new lines and the summary of a replacement of anchored lines.
pub open spec fn replaced(
    lines: Seq<Seq<char>>,
    old_lines: Seq<char>,
    new_string: Seq<char>,
) -> Result<(Seq<Seq<char>>, Seq<char>), Seq<char>> {
    match anchor_list_of(old_lines) {
        Err(e) => Err(e),
        Ok(anchors) => if !contiguous(anchors) {
            Err("Error: old_lines anchors must be contiguous and in increasing line order"@)
        } else {
            match anchors_check(lines, anchors) {
                Err(e) => Err(e),
                Ok(()) => {
                    let new_lines = edit_lines_of(new_string);
                    let start = anchors.first().0;
                    let end = anchors.last().0;
                    Ok(
                        (
                            spliced(lines, start - 1, end as int, new_lines),
                            "Replaced lines "@ + decimal(start as nat) + "-"@ + decimal(end as nat)
                                + " ("@ + decimal((end - start + 1) as nat) + " -> "@ + decimal(
                                new_lines.len(),
                            ) + " line(s))"@,
                        ),
                    )
                },
            }
        },
    }
}

/// The new lines and the summary of an edit, or the message that refuses it.
pub open spec fn edited_lines(
    lines: Seq<Seq<char>>,
    target: EditTargetView,
    new_string: Seq<char>,
) -> Result<(Seq<Seq<char>>, Seq<char>), Seq<char>> {
    match target {
        EditTargetView::OldLines(old_lines) => replaced(lines, old_lines, new_string),
        EditTargetView::InsertAfter(anchor) => inserted(lines, anchor, true, new_string),
        EditTargetView::InsertBefore(anchor) => inserted(lines, anchor, false, new_string),
    }
}

/// The new text of a file and the summary of an edit, or the message that refuses it. The
/// file keeps its line ending and whether its last line is ended.
pub open spec fn edited_file(
    content: Seq<char>,
    target: EditTargetView,
    new_string: Seq<char>,
) -> Result<(Seq<char>, Seq<char>), Seq<char>> {
    match edited_lines(lines_of(content), target, new_string) {
        Ok((lines, summary)) => Ok(
            (file_text(lines, ending_of(content), ends_with_newline(content)), summary),
        ),
        Err(e) => Err(e),
    }
}

/// Whether a text holds a carriage return followed by a line feed.
fn contains_crlf(cs: &Vec<char>) -> (r: bool)
    ensures
        r == has_crlf(cs@),
{
    let mut i: usize = 1;
    while i < cs.len()
        invariant
            1 <= i,
            forall|j: int| 0 <= j < i - 1 && j < cs@.len() - 1 ==> !(#[trigger] cs@[j] == '\r'
                && cs@[j + 1] == '\n'),
        decreases cs@.len() - i,
    {
        if cs[i - 1] == '\r' && cs[i] == '\n' {
            assert(cs@[i - 1] == '\r');
            return true;
        }
        i = i + 1;
    }
    false
}

/// The lines with those from index `from` up to `to` replaced.
fn splice(lines: &Vec<String>, from: usize, to: usize, new_lines: &Vec<String>) -> (r: Vec<String>)
    requires
        from <= to <= lines@.len(),
    ensures
        views(r@) == spliced(views(lines@), from as int, to as int, views(new_lines@)),
{
    let mut out: Vec<String> = Vec::new();
    push_lines(&mut out, lines, 0, from);
    push_lines(&mut out, new_lines, 0, new_lines.len());
    push_lines(&mut out, lines, to, lines.len());
    assert(views(out@) =~= spliced(views(lines@), from as int, to as int, views(new_lines@)));
    out
}

/// Appends copies of the lines from index `from` up to `to`.
fn push_lines(out: &mut Vec<String>, lines: &Vec<String>, from: usize, to: usize)
    requires
        from <= to <= lines@.len(),
    ensures
        views(final(out)@) == views(old(out)@) + views(lines@).subrange(from as int, to as int),
{
    let mut i: usize = from;
    while i < to
        invariant
            from <= i <= to <= lines@.len(),
            views(out@) =~= views(old(out)@) + views(lines@).subrange(from as int, i as int),
        decreases to - i,
    {
        let ghost before = out@;
        out.push(lines[i].clone());
        assert(views(out@) =~= views(before).push(lines@[i as int]@));
        i = i + 1;
    }
}

/// The text of a file with given lines.
pub fn join_file(lines: &Vec<String>, line_ending: &str, had_trailing_newline: bool) -> (r: String)
    ensures
        r@ == file_text(views(lines@), line_ending@, had_trailing_newline),
{
    let mut content = join(lines, line_ending);
    if had_trailing_newline && content.as_str().unicode_len() > 0 {
        content.append(line_ending);
    }
    content
}

/// The lines and the summary of an insertion next to an anchored line.
fn insert_lines(lines: &Vec<String>, anchor: &str, after: bool, new_string: &str) -> (r: Result<
    (Vec<String>, String),
    String,
>)
    ensures
        match r {
            Ok((new_lines, summary)) => inserted(views(lines@), anchor@, after, new_string@) == Ok::<
                (Seq<Seq<char>>, Seq<char>),
                Seq<char>,
            >((views(new_lines@), summary@)),
            Err(e) => inserted(views(lines@), anchor@, after, new_string@) == Err::<
                (Seq<Seq<char>>, Seq<char>),
                Seq<char>,
            >(e@),
        },
{
    let (line_no, tag) = match parse_anchor(anchor) {
        Ok(found) => found,
        Err(e) => return Err(e),
    };
    match verify_anchor(lines, line_no, tag.as_str()) {
        Ok(()) => {},
        Err(e) => return Err(e),
    }
    let insertion = edit_lines(new_string);
    assert(views(insertion@).len() == insertion@.len());
    assert(views(lines@).len() == lines@.len());
    if insertion.len() == 0 {
        return Err("Error: new_string is empty; nothing to insert".to_string());
    }
    let at = if after {
        line_no
    } else {
        line_no - 1
    };
    let new_lines = splice(lines, at, at, &insertion);
    let mut summary = "Inserted ".to_string();
    push_decimal(&mut summary, insertion.len() as u64);
    if after {
        summary.append(" line(s) after line ");
    } else {
        summary.append(" line(s) before line ");
    }
    push_decimal(&mut summary, line_no as u64);
    Ok((new_lines, summary))
}

/// Every anchor that a list holds names a line from one up.
pub(crate) proof fn lemma_anchor_numbers(lines: Seq<Seq<char>>)
    ensures
        match anchors_of(lines) {
            Ok(anchors) => forall|i: int|
                0 <= i < anchors.len() ==> (#[trigger] anchors[i]).0 >= 1,
            Err(_) => true,
        },
    decreases lines.len(),
{
    if lines.len() > 0 {
        lemma_anchor_numbers(lines.drop_last());
    }
}

/// Contiguous anchors count up by one.
pub(crate) proof fn lemma_contiguous(anchors: Seq<(usize, Seq<char>)>, i: int)
    requires
        contiguous(anchors),
        0 <= i < anchors.len(),
    ensures
        anchors[i].0 == anchors[0].0 + i,
    decreases i,
{
    if i > 0 {
        lemma_contiguous(anchors, i - 1);
        assert(anchors[i - 1].0 + 1 == anchors[i - 1 + 1].0);
    }
}

/// A failing anchor among the first ones decides.
proof fn lemma_first_failure_stays(
    lines: Seq<Seq<char>>,
    anchors: Seq<(usize, Seq<char>)>,
    i: int,
)
    requires
        0 <= i <= anchors.len(),
        anchors_check(lines, anchors.take(i)) is Err,
    ensures
        anchors_check(lines, anchors) == anchors_check(lines, anchors.take(i)),
    decreases anchors.len() - i,
{
    if i < anchors.len() {
        assert(anchors.take(i + 1).drop_last() =~= anchors.take(i));
        lemma_first_failure_stays(lines, anchors, i + 1);
    } else {
        assert(anchors.take(i) =~= anchors);
    }
}

/// Checks every anchor against the lines.
fn verify_anchors(lines: &Vec<String>, anchors: &Vec<(usize, String)>) -> (r: Result<(), String>)
    requires
        forall|i: int| 0 <= i < anchors@.len() ==> (#[trigger] anchors@[i]).0 >= 1,
    ensures
        match r {
            Ok(()) => anchors_check(
                views(lines@),
                anchors@.map_values(|a: (usize, String)| anchor_view(a)),
            ) == Ok::<(), Seq<char>>(()),
            Err(e) => anchors_check(
                views(lines@),
                anchors@.map_values(|a: (usize, String)| anchor_view(a)),
            ) == Err::<(), Seq<char>>(e@),
        },
{
    let ghost all = anchors@.map_values(|a: (usize, String)| anchor_view(a));
    let mut i: usize = 0;
    assert(all.take(0) =~= Seq::empty());
    while i < anchors.len()
        invariant
            i <= anchors@.len(),
            all == anchors@.map_values(|a: (usize, String)| anchor_view(a)),
            forall|i: int| 0 <= i < anchors@.len() ==> (#[trigger] anchors@[i]).0 >= 1,
            anchors_check(views(lines@), all.take(i as int)) == Ok::<(), Seq<char>>(()),
        decreases anchors@.len() - i,
    {
        assert(all.take(i + 1).drop_last() =~= all.take(i as int));
        assert(all.take(i + 1).last() == anchor_view(anchors@[i as int]));
        match verify_anchor(lines, anchors[i].0, anchors[i].1.as_str()) {
            Ok(()) => {},
            Err(e) => {
                proof {
                    lemma_first_failure_stays(views(lines@), all, i + 1);
                }
                return Err(e);
            },
        }
        i = i + 1;
    }
    assert(all.take(i as int) =~= all);
    Ok(())
}

/// Whether anchors name lines that follow one another.
fn are_contiguous(anchors: &Vec<(usize, String)>) -> (r: bool)
    ensures
        r == contiguous(anchors@.map_values(|a: (usize, String)| anchor_view(a))),
{
    let ghost all = anchors@.map_values(|a: (usize, String)| anchor_view(a));
    let mut i: usize = 1;
    while i < anchors.len()
        invariant
            1 <= i,
            all == anchors@.map_values(|a: (usize, String)| anchor_view(a)),
            forall|j: int|
                0 <= j < i - 1 && j < all.len() - 1 ==> (#[trigger] all[j]).0 + 1 == all[j + 1].0,
        decreases anchors@.len() - i,
    {
        let before = anchors[i - 1].0;
        let here = anchors[i].0;
        assert(all[i - 1].0 == before && all[i as int].0 == here);
        if before == usize::MAX || before + 1 != here {
            assert(all[i - 1].0 + 1 != all[i - 1 + 1].0);
            return false;
        }
        i = i + 1;
    }
    true
}

/// When every anchor passes the check, each one does.
pub(crate) proof fn lemma_all_pass(lines: Seq<Seq<char>>, anchors: Seq<(usize, Seq<char>)>)
    requires
        anchors_check(lines, anchors) is Ok,
    ensures
        forall|i: int|
            0 <= i < anchors.len() ==> anchor_check(
                lines,
                (#[trigger] anchors[i]).0 as nat,
                anchors[i].1,
            ) is Ok,
    decreases anchors.len(),
{
    if anchors.len() > 0 {
        lemma_all_pass(lines, anchors.drop_last());
        assert forall|i: int| 0 <= i < anchors.len() implies anchor_check(
            lines,
            (#[trigger] anchors[i]).0 as nat,
            anchors[i].1,
        ) is Ok by {
            if i < anchors.len() - 1 {
                assert(anchors.drop_last()[i] == anchors[i]);
            }
        }
    }
}

/// The lines and the summary of a replacement of anchored lines.
fn replace_lines(lines: &Vec<String>, old_lines: &str, new_string: &str) -> (r: Result<
    (Vec<String>, String),
    String,
>)
    ensures
        match r {
            Ok((new_lines, summary)) => replaced(views(lines@), old_lines@, new_string@) == Ok::<
                (Seq<Seq<char>>, Seq<char>),
                Seq<char>,
            >((views(new_lines@), summary@)),
            Err(e) => replaced(views(lines@), old_lines@, new_string@) == Err::<
                (Seq<Seq<char>>, Seq<char>),
                Seq<char>,
            >(e@),
        },
{
    let anchors = match parse_anchor_list(old_lines) {
        Ok(found) => found,
        Err(e) => return Err(e),
    };
    let ghost all = anchors@.map_values(|a: (usize, String)| anchor_view(a));
    proof {
        lemma_anchor_numbers(lines_of(old_lines@));
        assert forall|i: int| 0 <= i < anchors@.len() implies (#[trigger] anchors@[i]).0 >= 1 by {
            assert(all[i].0 == anchors@[i].0);
        }
    }
    if !are_contiguous(&anchors) {
        return Err(
            "Error: old_lines anchors must be contiguous and in increasing line order".to_string(),
        );
    }
    match verify_anchors(lines, &anchors) {
        Ok(()) => {},
        Err(e) => return Err(e),
    }
    let start = anchors[0].0;
    let end = anchors[anchors.len() - 1].0;
    proof {
        lemma_contiguous(all, all.len() - 1);
        lemma_all_pass(views(lines@), all);
        assert(anchor_check(views(lines@), all[all.len() - 1].0 as nat, all[all.len() - 1].1) is Ok);
        assert(start == all.first().0 && end == all.last().0);
        assert(views(lines@).len() == lines@.len());
    }
    let replacement = edit_lines(new_string);
    assert(views(replacement@).len() == replacement@.len());
    let new_lines = splice(lines, start - 1, end, &replacement);
    let mut summary = "Replaced lines ".to_string();
    push_decimal(&mut summary, start as u64);
    summary.append("-");
    push_decimal(&mut summary, end as u64);
    summary.append(" (");
    push_decimal(&mut summary, (end - start + 1) as u64);
    summary.append(" -> ");
    push_decimal(&mut summary, replacement.len() as u64);
    summary.append(" line(s))");
    Ok((new_lines, summary))
}

/// Edits the text of a file. The file keeps its line ending and whether its last line
/// is ended; what was done, or why nothing was, is said in words.
pub fn apply_edit(content: &str, target: &EditTarget, new_string: &str) -> (r: Result<
    Edited,
    String,
>)
    ensures
        match r {
            Ok(edited) => match edited_lines(lines_of(content@), target@, new_string@) {
                Ok((lines, summary)) => edited.summary@ == summary && edited.content@ == file_text(
                    lines,
                    ending_of(content@),
                    ends_with_newline(content@),
                ),
                Err(_) => false,
            },
            Err(e) => edited_lines(lines_of(content@), target@, new_string@) == Err::<
                (Seq<Seq<char>>, Seq<char>),
                Seq<char>,
            >(e@),
        },
        match r {
            Ok(edited) => edited_file(content@, target@, new_string@) == Ok::<
                (Seq<char>, Seq<char>),
                Seq<char>,
            >((edited.content@, edited.summary@)),
            Err(e) => edited_file(content@, target@, new_string@) == Err::<
                (Seq<char>, Seq<char>),
                Seq<char>,
            >(e@),
        },
{
    let cs = chars_of(content);
    let line_ending = if contains_crlf(&cs) {
        "\r\n"
    } else {
        "\n"
    };
    let had_trailing_newline = cs.len() > 0 && cs[cs.len() - 1] == '\n';
    let lines = split_lines(content);
    let outcome = match target {
        EditTarget::InsertAfter(anchor) => insert_lines(&lines, anchor.as_str(), true, new_string),
        EditTarget::InsertBefore(anchor) => insert_lines(&lines, anchor.as_str(), false, new_string),
        EditTarget::OldLines(old_lines) => replace_lines(&lines, old_lines.as_str(), new_string),
    };
    match outcome {
        Ok((new_lines, summary)) => {
            let text = join_file(&new_lines, line_ending, had_trailing_newline);
            Ok(Edited { content: text, summary })
        },
        Err(e) => Err(e),
    }
}

} // verus!
