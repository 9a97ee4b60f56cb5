//! The built-in tools: what the model is told of them, what each call asks for, and
//! what is answered.

use vstd::prelude::*;
use vstd::utf8::{decode_utf8, encode_utf8, encode_utf8_decode_utf8, valid_utf8};
use crate::api::{tools_view, ToolDef, ToolDefView, ToolFunction};
use crate::edit::{EditTarget, EditTargetView};
use crate::json::{
    count_field, field_count, field_text, parse_value, parsed_value, str_view, text_field,
};
use crate::number::{decimal, push_decimal};
use crate::text::{lines_of, same_text, split_lines, trim, trimmed, views};

verus! {

broadcast use vstd::seq::group_seq_axioms;

pub const BASH_DESCRIPTION: &'static str = "Execute a bash command. Returns stdout and stderr combined. Appends [exit code: N] on non-zero exit and [no output] when there is no output.";

pub const BASH_PARAMETERS: &'static str = "{\"type\":\"object\",\"properties\":{\"command\":{\"type\":\"string\",\"description\":\"The bash command to execute\"},\"workdir\":{\"type\":\"string\",\"description\":\"Working directory for the command (optional)\"}},\"required\":[\"command\"]}";

pub const READ_DESCRIPTION: &'static str = "Read the contents of a file. Returns lines prefixed with 'line_number:tag|content'. Use those line:tag anchors with edit. Use offset (1-indexed) and limit to read a range. Output ends with '[N lines total, showing lines X-Y]'.";

pub const READ_PARAMETERS: &'static str = "{\"type\":\"object\",\"properties\":{\"file_path\":{\"type\":\"string\",\"description\":\"Absolute path to the file\"},\"offset\":{\"type\":\"integer\",\"description\":\"Line number to start reading from (1-indexed)\"},\"limit\":{\"type\":\"integer\",\"description\":\"Maximum number of lines to read\"}},\"required\":[\"file_path\"]}";

pub const WRITE_DESCRIPTION: &'static str = "Write content to a file. Creates parent directories if needed. Overwrites existing files. Returns the number of lines written.";

pub const WRITE_PARAMETERS: &'static str = "{\"type\":\"object\",\"properties\":{\"file_path\":{\"type\":\"string\",\"description\":\"Absolute path to the file\"},\"content\":{\"type\":\"string\",\"description\":\"Content to write\"}},\"required\":[\"file_path\",\"content\"]}";

pub const EDIT_DESCRIPTION: &'static str = "Edit a file using line anchors returned by read. To replace or delete lines, set old_lines to every 'line:tag' anchor in the replaced range; those contiguous lines are replaced with new_string. To insert, set insert_after or insert_before to one 'line:tag' anchor. Tags must match the current file, so stale edits fail safely.";

pub const EDIT_PARAMETERS: &'static str = "{\"type\":\"object\",\"properties\":{\"file_path\":{\"type\":\"string\",\"description\":\"Absolute path to the file\"},\"old_lines\":{\"type\":\"string\",\"description\":\"Contiguous line anchors to replace, one per line, e.g. '11:rA3_\\\\n12:Kq9z'. Every line being replaced must be included. Use empty new_string to delete.\"},\"insert_after\":{\"type\":\"string\",\"description\":\"Single line anchor after which to insert new_string, e.g. '13:PX0b'\"},\"insert_before\":{\"type\":\"string\",\"description\":\"Single line anchor before which to insert new_string, e.g. '13:PX0b'\"},\"new_string\":{\"type\":\"string\",\"description\":\"Replacement or inserted lines. Use an empty string to delete old_lines.\"}},\"required\":[\"file_path\",\"new_string\"]}";

/// A tool definition of the kind that is a function.
pub open spec fn function_tool(
    name: Seq<char>,
    description: Seq<char>,
    parameters: serde_json::Value,
) -> ToolDefView {
    ToolDefView { tool_type: "function"@, name, description, parameters }
}

/// The four tools that are always offered.
pub open spec fn builtin_tools() -> Seq<ToolDefView> {
    seq![
        function_tool("bash"@, BASH_DESCRIPTION@, parsed_value(BASH_PARAMETERS@)),
        function_tool("read"@, READ_DESCRIPTION@, parsed_value(READ_PARAMETERS@)),
        function_tool("write"@, WRITE_DESCRIPTION@, parsed_value(WRITE_PARAMETERS@)),
        function_tool("edit"@, EDIT_DESCRIPTION@, parsed_value(EDIT_PARAMETERS@)),
    ]
}

/// A tool definition of the kind that is a function.
pub fn function_definition(
    name: &str,
    description: &str,
    parameters: serde_json::Value,
) -> (r: ToolDef)
    ensures
        r@ == function_tool(name@, description@, parameters),
{
    ToolDef {
        tool_type: "function".to_string(),
        function: ToolFunction {
            name: name.to_string(),
            description: description.to_string(),
            parameters,
        },
    }
}

/// The four tools that are always offered.
pub fn definitions() -> (r: Vec<ToolDef>)
    ensures
        tools_view(r@) == builtin_tools(),
{
    let mut tools: Vec<ToolDef> = Vec::new();
    tools.push(function_definition("bash", BASH_DESCRIPTION, parse_value(BASH_PARAMETERS)));
    tools.push(function_definition("read", READ_DESCRIPTION, parse_value(READ_PARAMETERS)));
    tools.push(function_definition("write", WRITE_DESCRIPTION, parse_value(WRITE_PARAMETERS)));
    tools.push(function_definition("edit", EDIT_DESCRIPTION, parse_value(EDIT_PARAMETERS)));
    assert(tools_view(tools@) =~= builtin_tools());
    tools
}

/// What a call of a built-in tool comes to: an answer at once, or something to do.
#[derive(Debug)]
#[allow(inconsistent_fields)]
pub enum ToolAction {
    Reply(String),
    RunBash { command: String, workdir: Option<String> },
    ReadFile { file_path: String, offset: Option<u64>, limit: Option<u64> },
    WriteFile { file_path: String, content: String },
    EditFile { file_path: String, target: EditTarget, new_string: String },
}

#[allow(inconsistent_fields)]
pub enum ToolActionView {
    Reply(Seq<char>),
    RunBash { command: Seq<char>, workdir: Option<Seq<char>> },
    ReadFile { file_path: Seq<char>, offset: Option<u64>, limit: Option<u64> },
    WriteFile { file_path: Seq<char>, content: Seq<char> },
    EditFile { file_path: Seq<char>, target: EditTargetView, new_string: Seq<char> },
}

impl View for ToolAction {
    type V = ToolActionView;

    open spec fn view(&self) -> ToolActionView {
        match *self {
            ToolAction::Reply(text) => ToolActionView::Reply(text@),
            ToolAction::RunBash { command, workdir } => ToolActionView::RunBash {
                command: command@,
                workdir: crate::api::opt_view(workdir),
            },
            ToolAction::ReadFile { file_path, offset, limit } => ToolActionView::ReadFile {
                file_path: file_path@,
                offset,
                limit,
            },
            ToolAction::WriteFile { file_path, content } => ToolActionView::WriteFile {
                file_path: file_path@,
                content: content@,
            },
            ToolAction::EditFile { file_path, target, new_string } => ToolActionView::EditFile {
                file_path: file_path@,
                target: target@,
                new_string: new_string@,
            },
        }
    }
}

/// What a call of the tool `bash` comes to.
pub open spec fn bash_call(command: Option<Seq<char>>, workdir: Option<Seq<char>>) -> ToolActionView {
    match command {
        None => ToolActionView::Reply("Error: command is required"@),
        Some(command) => ToolActionView::RunBash { command, workdir },
    }
}

/// What a call of the tool `read` comes to.
pub open spec fn read_call(
    file_path: Option<Seq<char>>,
    offset: Option<u64>,
    limit: Option<u64>,
) -> ToolActionView {
    match file_path {
        None => ToolActionView::Reply("Error: file_path is required"@),
        Some(file_path) => ToolActionView::ReadFile { file_path, offset, limit },
    }
}

/// What a call of the tool `write` comes to.
pub open spec fn write_call(file_path: Option<Seq<char>>, content: Option<Seq<char>>) -> ToolActionView {
    match (file_path, content) {
        (None, _) => ToolActionView::Reply("Error: file_path is required"@),
        (_, None) => ToolActionView::Reply("Error: content is required"@),
        (Some(file_path), Some(content)) => ToolActionView::WriteFile { file_path, content },
    }
}

/// Whether there is a text that is more than white space.
pub open spec fn is_filled(text: Option<Seq<char>>) -> bool {
    text matches Some(text) && trimmed(text).len() > 0
}

/// Where an edit goes, if exactly one place is given.
pub open spec fn edit_target(
    old_lines: Option<Seq<char>>,
    insert_after: Option<Seq<char>>,
    insert_before: Option<Seq<char>>,
) -> Option<EditTargetView> {
    match (is_filled(old_lines), is_filled(insert_after), is_filled(insert_before)) {
        (true, false, false) => Some(EditTargetView::OldLines(old_lines->0)),
        (false, true, false) => Some(EditTargetView::InsertAfter(insert_after->0)),
        (false, false, true) => Some(EditTargetView::InsertBefore(insert_before->0)),
        _ => None,
    }
}

/// What a call of the tool `edit` comes to.
pub open spec fn edit_call(
    file_path: Option<Seq<char>>,
    new_string: Option<Seq<char>>,
    target: Option<EditTargetView>,
) -> ToolActionView {
    match (file_path, new_string, target) {
        (None, _, _) => ToolActionView::Reply("Error: file_path is required"@),
        (_, None, _) => ToolActionView::Reply("Error: new_string is required"@),
        (_, _, None) => ToolActionView::Reply(
            "Error: set exactly one of old_lines, insert_after, or insert_before"@,
        ),
        (Some(file_path), Some(new_string), Some(target)) => ToolActionView::EditFile {
            file_path,
            target,
            new_string,
        },
    }
}

/// What a call of the tool `bash` comes to, by its arguments.
pub open spec fn bash_action(args: serde_json::Value) -> ToolActionView {
    bash_call(text_field(args, "command"@), text_field(args, "workdir"@))
}

/// What a call of the tool `read` comes to, by its arguments.
pub open spec fn read_action(args: serde_json::Value) -> ToolActionView {
    read_call(
        text_field(args, "file_path"@),
        count_field(args, "offset"@),
        count_field(args, "limit"@),
    )
}

/// What a call of the tool `write` comes to, by its arguments.
pub open spec fn write_action(args: serde_json::Value) -> ToolActionView {
    write_call(text_field(args, "file_path"@), text_field(args, "content"@))
}

/// What a call of the tool `edit` comes to, by its arguments.
pub open spec fn edit_action(args: serde_json::Value) -> ToolActionView {
    edit_call(
        text_field(args, "file_path"@),
        text_field(args, "new_string"@),
        edit_target(
            text_field(args, "old_lines"@),
            text_field(args, "insert_after"@),
            text_field(args, "insert_before"@),
        ),
    )
}

/// What a call of a built-in tool comes to; nothing is done once cancelled.
pub open spec fn tool_action(
    name: Seq<char>,
    args: serde_json::Value,
    cancelled: bool,
) -> ToolActionView {
    if cancelled {
        ToolActionView::Reply("cancelled"@)
    } else if name == "bash"@ {
        bash_action(args)
    } else if name == "read"@ {
        read_action(args)
    } else if name == "write"@ {
        write_action(args)
    } else if name == "edit"@ {
        edit_action(args)
    } else {
        ToolActionView::Reply("Unknown tool: "@ + name)
    }
}

/// Decides what a call of a built-in tool comes to.
pub fn execute(name: &str, args: &serde_json::Value, cancelled: bool) -> (r: ToolAction)
    ensures
        r@ == tool_action(name@, *args, cancelled),
{
    if cancelled {
        ToolAction::Reply("cancelled".to_string())
    } else if same_text(name, "bash") {
        exec_bash(args)
    } else if same_text(name, "read") {
        exec_read(args)
    } else if same_text(name, "write") {
        exec_write(args)
    } else if same_text(name, "edit") {
        exec_edit(args)
    } else {
        let mut message = "Unknown tool: ".to_string();
        message.append(name);
        ToolAction::Reply(message)
    }
}

/// Decides what a call of the tool `bash` comes to, by its arguments.
pub fn exec_bash(args: &serde_json::Value) -> (r: ToolAction)
    ensures
        r@ == bash_action(*args),
{
    plan_bash(field_text(args, "command"), field_text(args, "workdir"))
}

/// Decides what a call of the tool `bash` comes to.
pub fn plan_bash(command: Option<&str>, workdir: Option<&str>) -> (r: ToolAction)
    ensures
        r@ == bash_call(str_view(command), str_view(workdir)),
{
    match command {
        Some(command) => {
            let workdir = match workdir {
                Some(dir) => Some(dir.to_string()),
                None => None,
            };
            ToolAction::RunBash { command: command.to_string(), workdir }
        },
        None => ToolAction::Reply("Error: command is required".to_string()),
    }
}

/// Decides what a call of the tool `read` comes to, by its arguments.
pub fn exec_read(args: &serde_json::Value) -> (r: ToolAction)
    ensures
        r@ == read_action(*args),
{
    plan_read(
        field_text(args, "file_path"),
        field_count(args, "offset"),
        field_count(args, "limit"),
    )
}

/// Decides what a call of the tool `read` comes to.
pub fn plan_read(file_path: Option<&str>, offset: Option<u64>, limit: Option<u64>) -> (r: ToolAction)
    ensures
        r@ == read_call(str_view(file_path), offset, limit),
{
    match file_path {
        Some(file_path) => ToolAction::ReadFile { file_path: file_path.to_string(), offset, limit },
        None => ToolAction::Reply("Error: file_path is required".to_string()),
    }
}

/// Decides what a call of the tool `write` comes to, by its arguments.
pub fn exec_write(args: &serde_json::Value) -> (r: ToolAction)
    ensures
        r@ == write_action(*args),
{
    plan_write(field_text(args, "file_path"), field_text(args, "content"))
}

/// Decides what a call of the tool `write` comes to.
pub fn plan_write(file_path: Option<&str>, content: Option<&str>) -> (r: ToolAction)
    ensures
        r@ == write_call(str_view(file_path), str_view(content)),
{
    let file_path = match file_path {
        Some(file_path) => file_path,
        None => return ToolAction::Reply("Error: file_path is required".to_string()),
    };
    match content {
        Some(content) => ToolAction::WriteFile {
            file_path: file_path.to_string(),
            content: content.to_string(),
        },
        None => ToolAction::Reply("Error: content is required".to_string()),
    }
}

/// A text, where it is more than white space.
fn filled<'a>(text: Option<&'a str>) -> (r: Option<&'a str>)
    ensures
        r is Some <==> is_filled(str_view(text)),
        r is Some ==> r == text,
{
    match text {
        Some(text) => {
            if trim(text).as_str().unicode_len() > 0 {
                Some(text)
            } else {
                None
            }
        },
        None => None,
    }
}

/// Decides what a call of the tool `edit` comes to, by its arguments.
pub fn exec_edit(args: &serde_json::Value) -> (r: ToolAction)
    ensures
        r@ == edit_action(*args),
{
    plan_edit(
        field_text(args, "file_path"),
        field_text(args, "new_string"),
        field_text(args, "old_lines"),
        field_text(args, "insert_after"),
        field_text(args, "insert_before"),
    )
}

/// Decides what a call of the tool `edit` comes to.
pub fn plan_edit(
    file_path: Option<&str>,
    new_string: Option<&str>,
    old_lines: Option<&str>,
    insert_after: Option<&str>,
    insert_before: Option<&str>,
) -> (r: ToolAction)
    ensures
        r@ == edit_call(
            str_view(file_path),
            str_view(new_string),
            edit_target(str_view(old_lines), str_view(insert_after), str_view(insert_before)),
        ),
{
    let file_path = match file_path {
        Some(file_path) => file_path,
        None => return ToolAction::Reply("Error: file_path is required".to_string()),
    };
    let new_string = match new_string {
        Some(new_string) => new_string,
        None => return ToolAction::Reply("Error: new_string is required".to_string()),
    };
    let target = match (filled(old_lines), filled(insert_after), filled(insert_before)) {
        (Some(text), None, None) => EditTarget::OldLines(text.to_string()),
        (None, Some(text), None) => EditTarget::InsertAfter(text.to_string()),
        (None, None, Some(text)) => EditTarget::InsertBefore(text.to_string()),
        _ => return ToolAction::Reply(
            "Error: set exactly one of old_lines, insert_after, or insert_before".to_string(),
        ),
    };
    ToolAction::EditFile {
        file_path: file_path.to_string(),
        target,
        new_string: new_string.to_string(),
    }
}

/// What to do next about a running command.
#[derive(Debug)]
pub enum BashStep {
    /// Kill the command, read what it leaves, and answer this.
    Stop(String),
    /// Kill the command and answer this.
    Abandon(String),
    /// Read the output of the command, which has ended.
    Collect,
    /// Wait a while and look again.
    Wait,
}

/// How a running command was found: ended, still running, or not to be looked at.
#[derive(Debug)]
pub enum CommandState {
    Ended,
    Running,
    Unknown(String),
}

/// Decides what to do next about a running command. Its state is looked at only where
/// nothing was cancelled.
pub fn bash_step(cancelled: bool, state: CommandState) -> (r: BashStep)
    ensures
        cancelled ==> (r matches BashStep::Stop(text) && text@ == "cancelled"@),
        !cancelled ==> match state {
            CommandState::Ended => r is Collect,
            CommandState::Running => r is Wait,
            CommandState::Unknown(e) => (r matches BashStep::Abandon(text) && text@
                == "Failed to wait for command: "@ + e@),
        },
{
    if cancelled {
        return BashStep::Stop("cancelled".to_string());
    }
    match state {
        CommandState::Ended => BashStep::Collect,
        CommandState::Running => BashStep::Wait,
        CommandState::Unknown(e) => {
            let mut message = "Failed to wait for command: ".to_string();
            message.append(e.as_str());
            BashStep::Abandon(message)
        },
    }
}

/// The text that `String::from_utf8_lossy` makes of bytes.
pub uninterp spec fn lossy_text(bytes: Seq<u8>) -> Seq<char>;

/// `String::from_utf8_lossy`: a text that is a function of the bytes, and the very text
/// that they encode where they are valid UTF-8.
#[verifier::external_body]
fn decode_lossy(bytes: &[u8]) -> (r: String)
    ensures
        r@ == lossy_text(bytes@),
        valid_utf8(bytes@) ==> encode_utf8(r@) == bytes@,
{
    String::from_utf8_lossy(bytes).into_owned()
}

/// An integer in decimal notation, with a minus sign in front of a negative one.
pub open spec fn signed_decimal(n: int) -> Seq<char> {
    if n < 0 {
        "-"@ + decimal((-n) as nat)
    } else {
        decimal(n as nat)
    }
}

/// The two outputs of a command as texts, one below the other.
pub open spec fn combined_output(out: Seq<char>, err: Seq<char>) -> Seq<char> {
    if err.len() == 0 {
        out
    } else if out.len() == 0 {
        err
    } else {
        out.push('\n') + err
    }
}

/// What is answered about a command that has ended: its output, and its exit code where
/// it failed; a command that a signal ended counts as minus one.
pub open spec fn bash_answer(
    out: Seq<char>,
    err: Seq<char>,
    success: bool,
    code: Option<i32>,
) -> Seq<char> {
    let output = combined_output(out, err);
    let number = match code {
        Some(code) => code as int,
        None => -1,
    };
    let answer = if success {
        output
    } else {
        output + "\n[exit code: "@ + signed_decimal(number) + "]"@
    };
    if answer.len() == 0 {
        "[no output]"@
    } else {
        answer
    }
}

/// The text of an output; an empty output has an empty text.
pub open spec fn output_text(bytes: Seq<u8>) -> Seq<char> {
    if bytes.len() == 0 {
        Seq::empty()
    } else {
        lossy_text(bytes)
    }
}

/// The text of an output.
fn read_output(bytes: &[u8]) -> (r: String)
    ensures
        r@ == output_text(bytes@),
        valid_utf8(bytes@) ==> r@ == decode_utf8(bytes@),
{
    if bytes.len() == 0 {
        String::new()
    } else {
        let text = decode_lossy(bytes);
        proof {
            encode_utf8_decode_utf8(text@);
        }
        text
    }
}

/// Answers about a command that has ended, by the bytes of its two outputs.
pub fn bash_output(stdout: &[u8], stderr: &[u8], success: bool, code: Option<i32>) -> (r: String)
    ensures
        r@ == bash_answer(output_text(stdout@), output_text(stderr@), success, code),
        valid_utf8(stdout@) && valid_utf8(stderr@) ==> r@ == bash_answer(
            decode_utf8(stdout@),
            decode_utf8(stderr@),
            success,
            code,
        ),
{
    let out = read_output(stdout);
    let err = read_output(stderr);
    bash_reply(out.as_str(), err.as_str(), success, code)
}

/// Answers about a command that has ended, by the texts of its two outputs.
pub fn bash_reply(out: &str, err: &str, success: bool, code: Option<i32>) -> (r: String)
    ensures
        r@ == bash_answer(out@, err@, success, code),
{
    let mut result = out.to_string();
    if err.unicode_len() > 0 {
        if out.unicode_len() > 0 {
            result.push('\n');
        }
        result.append(err);
        assert(result@ =~= combined_output(out@, err@));
    }
    if !success {
        result.append("\n[exit code: ");
        match code {
            Some(code) => push_signed(&mut result, code),
            None => push_signed(&mut result, -1),
        }
        result.append("]");
        assert(result@ =~= bash_answer(out@, err@, success, code)) by {
            reveal_strlit("]");
        }
    }
    if result.as_str().unicode_len() == 0 {
        "[no output]".to_string()
    } else {
        result
    }
}

/// Appends an integer in decimal notation.
fn push_signed(out: &mut String, n: i32)
    ensures
        final(out)@ == old(out)@ + signed_decimal(n as int),
{
    if n < 0 {
        out.append("-");
        push_decimal(out, (-(n as i64)) as u64);
        assert(out@ =~= old(out)@ + signed_decimal(n as int));
    } else {
        push_decimal(out, n as u64);
    }
}

/// What a tool failed at.
#[derive(Debug, Clone, Copy)]
pub enum Failure {
    Start,
    Output,
    Read,
    CreateDirectory,
    Write,
}

/// The words in front of an error.
pub open spec fn failure_words(failure: Failure) -> Seq<char> {
    match failure {
        Failure::Start => "Failed to execute: "@,
        Failure::Output => "Failed to read command output: "@,
        Failure::Read => "Error reading file: "@,
        Failure::CreateDirectory => "Error creating directory: "@,
        Failure::Write => "Error writing file: "@,
    }
}

/// Answers about something that failed.
pub fn failure_reply(failure: Failure, error: &str) -> (r: String)
    ensures
        r@ == failure_words(failure) + error@,
{
    let mut message = match failure {
        Failure::Start => "Failed to execute: ".to_string(),
        Failure::Output => "Failed to read command output: ".to_string(),
        Failure::Read => "Error reading file: ".to_string(),
        Failure::CreateDirectory => "Error creating directory: ".to_string(),
        Failure::Write => "Error writing file: ".to_string(),
    };
    message.append(error);
    message
}

/// What is answered about a file that was written.
pub open spec fn write_answer(content: Seq<char>, shown_path: Seq<char>) -> Seq<char> {
    "Wrote "@ + decimal(lines_of(content).len()) + " lines to "@ + shown_path
}

/// Answers about a file that was written.
pub fn write_reply(content: &str, shown_path: &str) -> (r: String)
    ensures
        r@ == write_answer(content@, shown_path@),
{
    let lines = split_lines(content);
    assert(views(lines@).len() == lines@.len());
    let mut message = "Wrote ".to_string();
    push_decimal(&mut message, lines.len() as u64);
    message.append(" lines to ");
    message.append(shown_path);
    message
}

/// What is answered about a file that was edited.
pub open spec fn edit_answer(summary: Seq<char>, shown_path: Seq<char>) -> Seq<char> {
    summary + " in "@ + shown_path
}

/// Answers about a file that was edited.
pub fn edit_reply(summary: &str, shown_path: &str) -> (r: String)
    ensures
        r@ == edit_answer(summary@, shown_path@),
{
    let mut message = summary.to_string();
    message.append(" in ");
    message.append(shown_path);
    message
}

} // verus!
