//! What holds of the calls of the built-in tools and of their answers.

use vstd::prelude::*;
use crate::edit::EditTargetView;
use crate::json::{count_field, parsed_value, text_field};
use crate::number::decimal;
use crate::text::{is_white_space, lines_of, trimmed};
use crate::text_laws::{
    free_of, is_blank, lines_are_read_one_by_one, trimming_takes_white_space_only,
};
use crate::tools::{
    bash_answer, builtin_tools, edit_answer, edit_target, failure_words, is_filled, lossy_text,
    output_text, tool_action, write_answer, Failure, ToolActionView, BASH_DESCRIPTION,
    BASH_PARAMETERS, EDIT_DESCRIPTION, EDIT_PARAMETERS, READ_DESCRIPTION, READ_PARAMETERS,
    WRITE_DESCRIPTION, WRITE_PARAMETERS,
};

verus! {

broadcast use vstd::seq::group_seq_axioms;

/// What a command wrote: all of its output, and behind it all that it wrote as errors,
/// after a line feed where there is something of both.
pub open spec fn written(out: Seq<char>, err: Seq<char>) -> Seq<char> {
    out + (if out.len() > 0 && err.len() > 0 {
        seq!['\n']
    } else {
        Seq::empty()
    }) + err
}

/// An answer about a command holds all that the command wrote, whether it failed or not.
/// A failure only adds the exit code at the end, which says nothing of the output, and a
/// command that succeeded is answered with its output alone, or with a word that there was
/// none. Without an exit code a failure counts as minus one.
pub proof fn outputs_are_answered_in_full(out: Seq<char>, err: Seq<char>, code: Option<i32>)
    ensures
        out.is_prefix_of(bash_answer(out, err, false, code)),
        written(out, err).len() > 0 ==> bash_answer(out, err, true, code) == written(out, err),
        written(out, err).len() == 0 ==> bash_answer(out, err, true, code) == "[no output]"@,
        bash_answer(out, err, false, code) == written(out, err) + bash_answer(
            Seq::empty(),
            Seq::empty(),
            false,
            code,
        ),
        code matches Some(n) ==> bash_answer(Seq::empty(), Seq::empty(), false, code)
            == "\n[exit code: "@ + (if n < 0 {
            "-"@ + decimal((-n) as nat)
        } else {
            decimal(n as nat)
        }) + "]"@,
        code is None ==> bash_answer(out, err, false, code) == bash_answer(
            out,
            err,
            false,
            Some(-1i32),
        ),
{
    reveal_strlit("]");
    let none = Seq::<char>::empty();
    let end = bash_answer(none, none, false, code);
    let told = written(out, err);
    assert(bash_answer(out, err, false, code) =~= told + end);
    assert(bash_answer(out, err, false, code).take(out.len() as int) =~= out);
    if told.len() > 0 {
        assert(bash_answer(out, err, true, code) =~= told);
    }
    if let Some(n) = code {
        let number = if n < 0 {
            "-"@ + decimal((-n) as nat)
        } else {
            decimal(n as nat)
        };
        assert(end =~= "\n[exit code: "@ + number + "]"@);
    }
}

/// Where a command writes more, its answer says more: two outputs without errors are
/// answered alike only where they are the same.
pub proof fn different_outputs_are_answered_differently(
    out: Seq<char>,
    other: Seq<char>,
    success: bool,
    code: Option<i32>,
)
    requires
        out.len() > 0,
        other.len() > 0,
        bash_answer(out, Seq::empty(), success, code) == bash_answer(
            other,
            Seq::empty(),
            success,
            code,
        ),
    ensures
        out == other,
{
    let none = Seq::<char>::empty();
    outputs_are_answered_in_full(out, none, code);
    outputs_are_answered_in_full(other, none, code);
    let end = bash_answer(none, none, false, code);
    assert(written(out, none) =~= out);
    assert(written(other, none) =~= other);
    if !success {
        assert((out + end).len() == (other + end).len());
        assert((out + end).take(out.len() as int) =~= out);
        assert((other + end).take(other.len() as int) =~= other);
    }
}

/// Each tool is asked for just what its call gave, word for word, and a call that leaves
/// out what its tool needs is answered at once with the first thing that is missing.
pub proof fn calls_ask_for_what_they_give(args: serde_json::Value)
    ensures
        match text_field(args, "command"@) {
            Some(text) => tool_action("bash"@, args, false) == (ToolActionView::RunBash {
                command: text,
                workdir: text_field(args, "workdir"@),
            }),
            None => tool_action("bash"@, args, false) == ToolActionView::Reply(
                "Error: command is required"@,
            ),
        },
        match text_field(args, "file_path"@) {
            Some(text) => tool_action("read"@, args, false) == (ToolActionView::ReadFile {
                file_path: text,
                offset: count_field(args, "offset"@),
                limit: count_field(args, "limit"@),
            }),
            None => tool_action("read"@, args, false) == ToolActionView::Reply(
                "Error: file_path is required"@,
            ) && tool_action("write"@, args, false) == ToolActionView::Reply(
                "Error: file_path is required"@,
            ) && tool_action("edit"@, args, false) == ToolActionView::Reply(
                "Error: file_path is required"@,
            ),
        },
        text_field(args, "file_path"@) matches Some(path) ==> {
            &&& match text_field(args, "content"@) {
                Some(text) => tool_action("write"@, args, false) == (ToolActionView::WriteFile {
                    file_path: path,
                    content: text,
                }),
                None => tool_action("write"@, args, false) == ToolActionView::Reply(
                    "Error: content is required"@,
                ),
            }
            &&& match text_field(args, "new_string"@) {
                Some(text) => match edit_target(
                    text_field(args, "old_lines"@),
                    text_field(args, "insert_after"@),
                    text_field(args, "insert_before"@),
                ) {
                    Some(place) => tool_action("edit"@, args, false)
                        == (ToolActionView::EditFile {
                        file_path: path,
                        target: place,
                        new_string: text,
                    }),
                    None => tool_action("edit"@, args, false) == ToolActionView::Reply(
                        "Error: set exactly one of old_lines, insert_after, or insert_before"@,
                    ),
                },
                None => tool_action("edit"@, args, false) == ToolActionView::Reply(
                    "Error: new_string is required"@,
                ),
            }
        },
{
    reveal_strlit("bash");
    reveal_strlit("read");
    reveal_strlit("write");
    reveal_strlit("edit");
    assert("bash"@[0] == 'b' && "read"@[0] == 'r' && "write"@[0] == 'w' && "edit"@[0] == 'e');
}

/// Only the four tools do anything, and none does once cancelled.
pub proof fn other_calls_do_nothing(name: Seq<char>, args: serde_json::Value)
    ensures
        tool_action(name, args, true) == ToolActionView::Reply("cancelled"@),
        name != "bash"@ && name != "read"@ && name != "write"@ && name != "edit"@ ==> tool_action(
            name,
            args,
            false,
        ) == ToolActionView::Reply("Unknown tool: "@ + name),
{
}

/// A place for an edit is given where its text holds anything but white space.
pub proof fn a_place_is_given_by_more_than_white_space(text: Seq<char>)
    ensures
        is_filled(Some(text)) <==> !is_blank(text),
        !is_filled(None),
{
    trimming_takes_white_space_only(text);
    let (from, to) = choose|from: int, to: int|
        #![trigger text.subrange(from, to)]
        0 <= from <= to <= text.len() && trimmed(text) == text.subrange(from, to) && is_blank(
            text.take(from),
        ) && is_blank(text.skip(to));
    if is_filled(Some(text)) {
        assert(trimmed(text)[0] == text[from]);
    } else {
        assert forall|i: int| 0 <= i < text.len() implies is_white_space(#[trigger] text[i]) by {
            if i < from {
                assert(text.take(from)[i] == text[i]);
            } else {
                assert(text.skip(to)[i - to] == text[i]);
            }
        }
    }
}

/// An edit has a place where exactly one is given, and then it is that one, as given.
pub proof fn an_edit_has_one_place(
    old_lines: Option<Seq<char>>,
    insert_after: Option<Seq<char>>,
    insert_before: Option<Seq<char>>,
)
    ensures
        ({
            let given = (if is_filled(old_lines) {
                1int
            } else {
                0
            }) + (if is_filled(insert_after) {
                1int
            } else {
                0
            }) + (if is_filled(insert_before) {
                1int
            } else {
                0
            });
            match edit_target(old_lines, insert_after, insert_before) {
                Some(EditTargetView::OldLines(text)) => given == 1 && old_lines == Some(text)
                    && is_filled(old_lines),
                Some(EditTargetView::InsertAfter(text)) => given == 1 && insert_after == Some(
                    text,
                ) && is_filled(insert_after),
                Some(EditTargetView::InsertBefore(text)) => given == 1 && insert_before == Some(
                    text,
                ) && is_filled(insert_before),
                None => given != 1,
            }
        }),
{
}

/// Four tools are offered: one that runs commands and those that read, write and edit
/// files, in this order. The parameters of each are the value of their text.
pub proof fn four_tools_are_offered()
    ensures
        builtin_tools().len() == 4,
        forall|i: int| 0 <= i < 4 ==> (#[trigger] builtin_tools()[i]).tool_type == "function"@,
        builtin_tools()[0].name == "bash"@,
        builtin_tools()[0].description == BASH_DESCRIPTION@,
        builtin_tools()[0].parameters == parsed_value(BASH_PARAMETERS@),
        builtin_tools()[1].name == "read"@,
        builtin_tools()[1].description == READ_DESCRIPTION@,
        builtin_tools()[1].parameters == parsed_value(READ_PARAMETERS@),
        builtin_tools()[2].name == "write"@,
        builtin_tools()[2].description == WRITE_DESCRIPTION@,
        builtin_tools()[2].parameters == parsed_value(WRITE_PARAMETERS@),
        builtin_tools()[3].name == "edit"@,
        builtin_tools()[3].description == EDIT_DESCRIPTION@,
        builtin_tools()[3].parameters == parsed_value(EDIT_PARAMETERS@),
{
}

/// A failure is named by what was tried.
pub proof fn failures_are_named()
    ensures
        failure_words(Failure::Start) == "Failed to execute: "@,
        failure_words(Failure::Output) == "Failed to read command output: "@,
        failure_words(Failure::Read) == "Error reading file: "@,
        failure_words(Failure::CreateDirectory) == "Error creating directory: "@,
        failure_words(Failure::Write) == "Error writing file: "@,
{
}

/// An output is read whole, and an empty one has no text.
pub proof fn outputs_are_read_whole(bytes: Seq<u8>)
    ensures
        bytes.len() > 0 ==> output_text(bytes) == lossy_text(bytes),
        bytes.len() == 0 ==> output_text(bytes).len() == 0,
{
}

/// A file that was written is answered with its path and how many lines it has: one for
/// each line feed, and one for what follows the last.
pub proof fn written_lines_are_counted(line: Seq<char>, rest: Seq<char>, path: Seq<char>)
    requires
        free_of(line, '\n'),
    ensures
        write_answer(line + seq!['\n'] + rest, path) == "Wrote "@ + decimal(
            lines_of(rest).len() + 1,
        ) + " lines to "@ + path,
        line.len() > 0 ==> write_answer(line, path) == "Wrote "@ + decimal(1) + " lines to "@
            + path,
        write_answer(Seq::empty(), path) == "Wrote "@ + decimal(0) + " lines to "@ + path,
{
    lines_are_read_one_by_one(line, rest);
}

/// A file that was edited is answered with what was done and its path.
pub proof fn edits_are_answered_with_their_path(summary: Seq<char>, path: Seq<char>)
    ensures
        edit_answer(summary, path) == summary + " in "@ + path,
{
}

} // verus!
