use coding_agent::anchor::{edit_lines, line_tag, parse_anchor, parse_anchor_list, verify_anchor};
use coding_agent::edit::{apply_edit, EditTarget};
use coding_agent::listing::list_lines;
use coding_agent::tools::{
    bash_output, bash_reply, bash_step, definitions, edit_reply, execute, failure_reply,
    function_definition, plan_bash, plan_edit, plan_read, plan_write, write_reply, BashStep,
    CommandState, Failure, ToolAction,
};

fn json(text: &str) -> serde_json::Value {
    serde_json::from_str(text).unwrap()
}

fn object(fields: &[(&str, String)]) -> serde_json::Value {
    let mut map = serde_json::Map::new();
    for (key, value) in fields {
        map.insert(key.to_string(), serde_json::Value::String(value.clone()));
    }
    serde_json::Value::Object(map)
}

/// Runs the tool `read` on a file of this content.
fn read(content: &str, args: &serde_json::Value) -> String {
    match execute("read", args, false) {
        ToolAction::Reply(text) => text,
        ToolAction::ReadFile { offset, limit, .. } => list_lines(content, offset, limit),
        other => panic!("{:?}", other),
    }
}

/// Runs the tool `edit` on a file of this content: the answer and the new content.
fn edit(content: &str, args: &serde_json::Value) -> (String, String) {
    match execute("edit", args, false) {
        ToolAction::Reply(text) => (text, content.to_string()),
        ToolAction::EditFile { file_path, target, new_string } => {
            match apply_edit(content, &target, &new_string) {
                Ok(edited) => (edit_reply(&edited.summary, &file_path), edited.content),
                Err(e) => (e, content.to_string()),
            }
        }
        other => panic!("{:?}", other),
    }
}

#[test]
fn read_returns_line_tags() {
    let output = read("alpha\nbeta\ngamma\n", &json(r#"{"file_path": "file.txt"}"#));

    assert!(output.contains(&format!("2:{}|beta", line_tag("beta"))));
    assert!(output.contains("edit anchors are line:tag"));
}

#[test]
fn edit_replaces_anchored_line() {
    let (output, content) = edit(
        "alpha\nbeta\ngamma\n",
        &object(&[
            ("file_path", "file.txt".to_string()),
            ("old_lines", format!("2:{}|beta", line_tag("beta"))),
            ("new_string", "BETA".to_string()),
        ]),
    );

    assert!(output.contains("Replaced lines 2-2"));
    assert_eq!(output, "Replaced lines 2-2 (1 -> 1 line(s)) in file.txt");
    assert_eq!(content, "alpha\nBETA\ngamma\n");
}

#[test]
fn edit_rejects_stale_anchor() {
    let (output, content) = edit(
        "alpha\nchanged\ngamma\n",
        &object(&[
            ("file_path", "file.txt".to_string()),
            ("old_lines", format!("2:{}", line_tag("beta"))),
            ("new_string", "BETA".to_string()),
        ]),
    );

    assert!(output.contains("tag mismatch"));
    assert_eq!(content, "alpha\nchanged\ngamma\n");
}

#[test]
fn edit_inserts_after_anchor() {
    let (output, content) = edit(
        "alpha\ngamma\n",
        &object(&[
            ("file_path", "file.txt".to_string()),
            ("insert_after", format!("1:{}", line_tag("alpha"))),
            ("new_string", "beta".to_string()),
        ]),
    );

    assert!(output.contains("Inserted 1 line(s) after line 1"));
    assert_eq!(output, "Inserted 1 line(s) after line 1 in file.txt");
    assert_eq!(content, "alpha\nbeta\ngamma\n");
}

#[test]
fn edit_inserts_before_anchor() {
    let (output, content) = edit(
        "alpha\r\ngamma",
        &object(&[
            ("file_path", "f".to_string()),
            ("insert_before", format!(" 2 : {} |gamma", line_tag("gamma"))),
            ("new_string", "b1\nb2\r\n".to_string()),
        ]),
    );
    assert_eq!(output, "Inserted 2 line(s) before line 2 in f");
    assert_eq!(content, "alpha\r\nb1\r\nb2\r\ngamma");
}

#[test]
fn edit_deletes_lines() {
    let old = format!("1:{}\n\n 2:{}", line_tag("a"), line_tag("b"));
    let edited = apply_edit("a\nb\nc\n", &EditTarget::OldLines(old), "").unwrap();
    assert_eq!(edited.content, "c\n");
    assert_eq!(edited.summary, "Replaced lines 1-2 (2 -> 0 line(s))");
    let all = format!("1:{}", line_tag("a"));
    assert_eq!(apply_edit("a\n", &EditTarget::OldLines(all), "").unwrap().content, "");
}

#[test]
fn edit_refuses_what_is_not_contiguous() {
    let old = format!("1:{}\n3:{}", line_tag("a"), line_tag("c"));
    assert_eq!(
        apply_edit("a\nb\nc\n", &EditTarget::OldLines(old), "x").unwrap_err(),
        "Error: old_lines anchors must be contiguous and in increasing line order"
    );
}

#[test]
fn edit_refuses_to_insert_nothing() {
    let anchor = format!("1:{}", line_tag("a"));
    for target in [EditTarget::InsertAfter(anchor.clone()), EditTarget::InsertBefore(anchor)] {
        assert_eq!(
            apply_edit("a\n", &target, "").unwrap_err(),
            "Error: new_string is empty; nothing to insert"
        );
    }
}

#[test]
fn stale_anchors_tell_where_the_line_is_now() {
    let lines: Vec<String> = ["x", "a", "y", "a"].iter().map(|s| s.to_string()).collect();
    assert_eq!(
        verify_anchor(&lines, 1, &line_tag("a")).unwrap_err(),
        format!(
            "Error: tag mismatch at line 1: expected {}, found {}. Matching tag is now at line(s): 2, 4. Re-read the file before editing.",
            line_tag("a"),
            line_tag("x")
        )
    );
    assert_eq!(
        verify_anchor(&lines, 3, "none").unwrap_err(),
        format!(
            "Error: tag mismatch at line 3: expected none, found {}. Re-read the file before editing.",
            line_tag("y")
        )
    );
    assert_eq!(verify_anchor(&lines, 5, "none").unwrap_err(), "Error: line 5 is outside the file");
    assert_eq!(verify_anchor(&lines, 2, &line_tag("a")), Ok(()));
    let many: Vec<String> = (0..9).map(|_| "same".to_string()).chain(["other".to_string()]).collect();
    assert!(verify_anchor(&many, 10, &line_tag("same"))
        .unwrap_err()
        .contains("at line(s): 1, 2, 3, 4, 5. "));
}

#[test]
fn tags_are_those_of_the_hash() {
    const ALPHABET: &[u8; 64] = b"ABCDEFGHIJKLMNOPQRSTUVWXYZabcdefghijklmnopqrstuvwxyz0123456789_-";
    for line in ["", "a", "beta", "fn main() {", "é∂ß", "\u{1f600}\t "] {
        let mut hash = 0x811c9dc5u32;
        for byte in line.as_bytes() {
            hash ^= *byte as u32;
            hash = hash.wrapping_mul(0x01000193);
        }
        let mut tag = String::new();
        for shift in [18, 12, 6, 0] {
            tag.push(ALPHABET[((hash >> shift) & 0x3f) as usize] as char);
        }
        assert_eq!(line_tag(line), tag);
    }
    assert_eq!(line_tag(""), "HJ3F");
}

#[test]
fn anchors_are_read() {
    assert_eq!(parse_anchor("12:AbC_"), Ok((12, "AbC_".to_string())));
    assert_eq!(parse_anchor("  12 : AbC_  | x:y|z"), Ok((12, "AbC_".to_string())));
    assert_eq!(parse_anchor("+3:t"), Ok((3, "t".to_string())));
    assert_eq!(parse_anchor("3:a:b"), Ok((3, "a:b".to_string())));
}

#[test]
fn faulty_anchors_are_refused() {
    assert_eq!(
        parse_anchor("abc").unwrap_err(),
        "Error: invalid anchor 'abc'; expected line:tag"
    );
    for bad in ["x:t", ":t", "-1:t", "1 2:t", "99999999999999999999:t"] {
        assert_eq!(
            parse_anchor(bad).unwrap_err(),
            format!("Error: invalid line number in anchor '{}'", bad)
        );
    }
    assert_eq!(parse_anchor("0:t").unwrap_err(), "Error: line numbers are 1-indexed");
    assert_eq!(parse_anchor("1: ").unwrap_err(), "Error: missing tag in anchor '1: '");
    assert_eq!(
        parse_anchor_list(" \n\r\n").unwrap_err(),
        "Error: old_lines must contain at least one line:tag anchor"
    );
    assert_eq!(
        parse_anchor_list("1:a\nnope").unwrap_err(),
        "Error: invalid anchor 'nope'; expected line:tag"
    );
    assert_eq!(
        parse_anchor_list("1:a\n\n  2:b|text").unwrap(),
        vec![(1, "a".to_string()), (2, "b".to_string())]
    );
}

#[test]
fn new_lines_are_cut_at_line_feeds() {
    assert_eq!(edit_lines(""), Vec::<String>::new());
    assert_eq!(edit_lines("\n"), vec![""]);
    assert_eq!(edit_lines("\r\n"), vec![""]);
    assert_eq!(edit_lines("a\r\nb\n\nc\n"), vec!["a", "b", "", "c"]);
    assert_eq!(edit_lines("a\n\n"), vec!["a", ""]);
}

#[test]
fn listings_show_a_range() {
    let content = "a\nb\nc\n";
    let row = |n: usize, line: &str| format!("{}:{}|{}", n, line_tag(line), line);
    assert_eq!(
        list_lines(content, None, None),
        format!(
            "{}\n{}\n{}\n[3 lines total, showing lines 1-3; edit anchors are line:tag]",
            row(1, "a"),
            row(2, "b"),
            row(3, "c")
        )
    );
    assert_eq!(
        list_lines(content, Some(2), Some(1)),
        format!("{}\n[3 lines total, showing lines 2-2; edit anchors are line:tag]", row(2, "b"))
    );
    assert_eq!(list_lines(content, Some(0), Some(u64::MAX)), list_lines(content, None, None));
    assert_eq!(list_lines(content, Some(4), None), "[no lines in range]");
    assert_eq!(list_lines(content, None, Some(0)), "[no lines in range]");
    assert_eq!(list_lines("", Some(2), Some(1)), "[empty file]");
}

#[test]
fn shown_lines_replace_themselves() {
    let content = "one\n\n  two|x\nthree\n";
    let listing = list_lines(content, None, None);
    let shown: Vec<&str> = listing.lines().take(4).collect();
    let edited = apply_edit(content, &EditTarget::OldLines(shown.join("\n")), content).unwrap();
    assert_eq!(edited.content, content);
    assert_eq!(edited.summary, "Replaced lines 1-4 (4 -> 4 line(s))");
}

#[test]
fn edits_keep_line_endings() {
    let anchor = format!("2:{}", line_tag("b"));
    let edited = apply_edit("a\r\nb\r\n", &EditTarget::OldLines(anchor.clone()), "x\ny").unwrap();
    assert_eq!(edited.content, "a\r\nx\r\ny\r\n");
    let edited = apply_edit("a\nb", &EditTarget::InsertAfter(anchor), "c\n").unwrap();
    assert_eq!(edited.content, "a\nb\nc");
}

#[test]
fn missing_arguments_are_told() {
    let cases = [
        ("bash", "{}", "Error: command is required"),
        ("bash", r#"{"command": 3}"#, "Error: command is required"),
        ("read", "[]", "Error: file_path is required"),
        ("write", r#"{"content": "x"}"#, "Error: file_path is required"),
        ("write", r#"{"file_path": "x"}"#, "Error: content is required"),
        ("edit", "null", "Error: file_path is required"),
        ("edit", r#"{"file_path": "x"}"#, "Error: new_string is required"),
        (
            "edit",
            r#"{"file_path": "x", "new_string": ""}"#,
            "Error: set exactly one of old_lines, insert_after, or insert_before",
        ),
        (
            "edit",
            r#"{"file_path": "x", "new_string": "", "old_lines": "1:a", "insert_after": "1:a"}"#,
            "Error: set exactly one of old_lines, insert_after, or insert_before",
        ),
        ("nothing", "{}", "Unknown tool: nothing"),
    ];
    for (name, args, reply) in cases {
        match execute(name, &json(args), false) {
            ToolAction::Reply(text) => assert_eq!(text, reply),
            other => panic!("{:?}", other),
        }
        match execute(name, &json(args), true) {
            ToolAction::Reply(text) => assert_eq!(text, "cancelled"),
            other => panic!("{:?}", other),
        }
    }
}

#[test]
fn calls_come_to_actions() {
    match execute("bash", &json(r#"{"command": "ls -l", "workdir": "/tmp"}"#), false) {
        ToolAction::RunBash { command, workdir } => {
            assert_eq!(command, "ls -l");
            assert_eq!(workdir, Some("/tmp".to_string()));
        }
        other => panic!("{:?}", other),
    }
    match execute("bash", &json(r#"{"command": "ls", "workdir": 1}"#), false) {
        ToolAction::RunBash { workdir, .. } => assert_eq!(workdir, None),
        other => panic!("{:?}", other),
    }
    match execute("read", &json(r#"{"file_path": "f", "offset": 7, "limit": -1}"#), false) {
        ToolAction::ReadFile { file_path, offset, limit } => {
            assert_eq!((file_path.as_str(), offset, limit), ("f", Some(7), None));
        }
        other => panic!("{:?}", other),
    }
    match execute("write", &json(r#"{"file_path": "f", "content": "a\nb"}"#), false) {
        ToolAction::WriteFile { file_path, content } => {
            assert_eq!((file_path.as_str(), content.as_str()), ("f", "a\nb"));
        }
        other => panic!("{:?}", other),
    }
    let args = json(r#"{"file_path": "f", "new_string": "x", "old_lines": " ", "insert_after": "1:a"}"#);
    match execute("edit", &args, false) {
        ToolAction::EditFile { target: EditTarget::InsertAfter(anchor), new_string, .. } => {
            assert_eq!((anchor.as_str(), new_string.as_str()), ("1:a", "x"));
        }
        other => panic!("{:?}", other),
    }
}

#[test]
fn the_four_tools_are_defined() {
    let tools = definitions();
    let names: Vec<&str> = tools.iter().map(|t| t.function.name.as_str()).collect();
    assert_eq!(names, vec!["bash", "read", "write", "edit"]);
    let required: Vec<String> =
        tools.iter().map(|t| t.function.parameters["required"].to_string()).collect();
    assert_eq!(
        required,
        vec![
            r#"["command"]"#,
            r#"["file_path"]"#,
            r#"["file_path","content"]"#,
            r#"["file_path","new_string"]"#
        ]
    );
    for tool in &tools {
        assert_eq!(tool.tool_type, "function");
        assert_eq!(tool.function.parameters["type"], "object");
    }
    assert_eq!(
        tools[1].function.parameters["properties"]["offset"]["description"],
        "Line number to start reading from (1-indexed)"
    );
    assert_eq!(
        tools[3].function.parameters["properties"]["old_lines"]["description"],
        "Contiguous line anchors to replace, one per line, e.g. '11:rA3_\\n12:Kq9z'. Every line being replaced must be included. Use empty new_string to delete."
    );
}

#[test]
fn commands_are_answered() {
    assert_eq!(bash_reply("out", "err", true, Some(0)), "out\nerr");
    assert_eq!(bash_reply("", "err", true, Some(0)), "err");
    assert_eq!(bash_reply("out", "", false, Some(2)), "out\n[exit code: 2]");
    assert_eq!(bash_reply("", "", false, None), "\n[exit code: -1]");
    assert_eq!(bash_reply("", "", false, Some(i32::MIN)), "\n[exit code: -2147483648]");
    assert_eq!(bash_reply("", "", true, Some(0)), "[no output]");
    assert_eq!(bash_output("h\u{e9}".as_bytes(), b"", true, Some(0)), "h\u{e9}");
    assert_eq!(bash_output(&[0x61, 0xff, 0x62], b"e", true, Some(0)), "a\u{fffd}b\ne");
    assert_eq!(bash_output(b"", b"", true, Some(0)), "[no output]");
}

#[test]
fn running_commands_are_watched() {
    assert!(matches!(bash_step(true, CommandState::Ended), BashStep::Stop(t) if t == "cancelled"));
    assert!(matches!(bash_step(false, CommandState::Ended), BashStep::Collect));
    assert!(matches!(bash_step(false, CommandState::Running), BashStep::Wait));
    assert!(matches!(
        bash_step(false, CommandState::Unknown("e".to_string())),
        BashStep::Abandon(t) if t == "Failed to wait for command: e"
    ));
}

#[test]
fn failures_are_answered() {
    assert_eq!(failure_reply(Failure::Start, "e"), "Failed to execute: e");
    assert_eq!(failure_reply(Failure::Output, "e"), "Failed to read command output: e");
    assert_eq!(failure_reply(Failure::Read, "e"), "Error reading file: e");
    assert_eq!(failure_reply(Failure::CreateDirectory, "e"), "Error creating directory: e");
    assert_eq!(failure_reply(Failure::Write, "e"), "Error writing file: e");
    assert_eq!(write_reply("a\nb\n", "f"), "Wrote 2 lines to f");
    assert_eq!(write_reply("", "f"), "Wrote 0 lines to f");
}

#[test]
fn plain_arguments_come_to_actions() {
    assert!(matches!(plan_bash(None, Some("d")), ToolAction::Reply(t)
        if t == "Error: command is required"));
    assert!(matches!(plan_bash(Some("c"), None), ToolAction::RunBash { command, workdir: None }
        if command == "c"));
    assert!(matches!(plan_read(Some("f"), Some(2), Some(3)),
        ToolAction::ReadFile { offset: Some(2), limit: Some(3), .. }));
    assert!(matches!(plan_write(None, None), ToolAction::Reply(t)
        if t == "Error: file_path is required"));
    assert!(matches!(plan_write(Some("f"), Some("")), ToolAction::WriteFile { .. }));
    assert!(matches!(plan_edit(Some("f"), Some("n"), Some("\t"), Some(" "), Some("1:a")),
        ToolAction::EditFile { target: EditTarget::InsertBefore(a), .. } if a == "1:a"));
    assert!(matches!(plan_edit(Some("f"), Some("n"), None, Some("1:a"), Some("1:a")),
        ToolAction::Reply(_)));
    let tool = function_definition("n", "d", json("[1]"));
    assert_eq!((tool.tool_type.as_str(), tool.function.name.as_str()), ("function", "n"));
    assert_eq!(tool.function.parameters[0], 1);
}

#[test]
fn edited_files_read_back() {
    for (content, ending) in [("a\nb\n", "\n"), ("a\r\nb\r\n", "\r\n"), ("a\nb", "\n"), ("a\r\nb", "\r\n")] {
        let anchor = format!("1:{}", line_tag("a"));
        let edited = apply_edit(content, &EditTarget::InsertAfter(anchor), "x\n\ny\r\n").unwrap();
        let lines: Vec<&str> = edited.content.lines().collect();
        assert_eq!(lines, vec!["a", "x", "", "y", "b"]);
        assert_eq!(edited.content.ends_with('\n'), content.ends_with('\n'));
        assert_eq!(edited.content.matches(ending).count(), if content.ends_with('\n') { 5 } else { 4 });
        assert!(list_lines(&edited.content, Some(4), Some(1))
            .starts_with(&format!("4:{}|y\n[5 lines total, showing lines 4-4;", line_tag("y"))));
    }
}
