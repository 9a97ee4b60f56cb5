use coding_agent::agent::UiEvent;
use coding_agent::ui::render::{Color, InputPane, Style, StyledLine};
use coding_agent::ui::{App, DisplayEvent, Key, KeyCode, KeyOutcome, PasteStep};

fn app() -> App {
    App::new("m".to_string(), 128_000)
}

fn key(code: KeyCode) -> Key {
    Key { code, ctrl: false, shift: false, alt: false, pressed: true }
}

fn ctrl(ch: char) -> Key {
    Key { ctrl: true, ..key(KeyCode::Char(ch)) }
}

fn press(app: &mut App, k: Key) -> KeyOutcome {
    app.handle_key(k, 0)
}

fn type_in(app: &mut App, text: &str) {
    for ch in text.chars() {
        assert!(matches!(press(app, key(KeyCode::Char(ch))), KeyOutcome::Continue));
    }
}

fn submit(app: &mut App, now: u64) -> String {
    match app.handle_key(key(KeyCode::Enter), now) {
        KeyOutcome::Submit { text, .. } => text,
        other => panic!("{:?}", other),
    }
}

fn text_of(line: &StyledLine) -> String {
    line.spans.iter().map(|s| s.text.as_str()).collect()
}

fn texts(lines: &[StyledLine]) -> Vec<String> {
    lines.iter().map(text_of).collect()
}

/// What is typed, with the cursor's column in the single row.
fn typed(app: &App) -> (String, u16) {
    let pane: InputPane = app.draw_input(200, 0);
    assert_eq!(pane.lines.len(), 1);
    let (x, y) = pane.cursor.unwrap();
    assert_eq!(y, 0);
    (pane.lines[0].spans[1].text.clone(), x - 2)
}

fn rows(app: &App) -> Vec<String> {
    texts(&app.build_lines(40, 0))
}

#[test]
fn keys_edit_the_input() {
    let mut app = app();
    type_in(&mut app, "hello wörld");
    assert_eq!(typed(&app), ("hello wörld".to_string(), 11));
    press(&mut app, key(KeyCode::Left));
    press(&mut app, key(KeyCode::Backspace));
    assert_eq!(typed(&app), ("hello wörd".to_string(), 9));
    press(&mut app, key(KeyCode::Delete));
    press(&mut app, key(KeyCode::Delete));
    assert_eq!(typed(&app), ("hello wör".to_string(), 9));
    press(&mut app, key(KeyCode::Home));
    press(&mut app, key(KeyCode::Left));
    press(&mut app, key(KeyCode::Backspace));
    assert_eq!(typed(&app), ("hello wör".to_string(), 0));
    press(&mut app, key(KeyCode::Right));
    press(&mut app, key(KeyCode::Delete));
    assert_eq!(typed(&app), ("hllo wör".to_string(), 1));
    press(&mut app, key(KeyCode::End));
    press(&mut app, key(KeyCode::Right));
    assert_eq!(typed(&app), ("hllo wör".to_string(), 8));
}

#[test]
fn control_keys_edit_the_input() {
    let mut app = app();
    type_in(&mut app, "one two  ");
    press(&mut app, ctrl('w'));
    assert_eq!(typed(&app), ("one ".to_string(), 4));
    type_in(&mut app, "two three");
    press(&mut app, ctrl('a'));
    assert_eq!(typed(&app).1, 0);
    press(&mut app, ctrl('w'));
    press(&mut app, ctrl('e'));
    assert_eq!(typed(&app), ("one two three".to_string(), 13));
    for _ in 0..6 {
        press(&mut app, key(KeyCode::Left));
    }
    press(&mut app, ctrl('w'));
    assert_eq!(typed(&app), ("one  three".to_string(), 4));
    press(&mut app, ctrl('k'));
    assert_eq!(typed(&app), ("one ".to_string(), 4));
    press(&mut app, key(KeyCode::Left));
    press(&mut app, ctrl('u'));
    assert_eq!(typed(&app), (" ".to_string(), 0));
    press(&mut app, ctrl('x'));
    press(&mut app, Key { alt: true, ..key(KeyCode::Char('x')) });
    press(&mut app, Key { pressed: false, ..key(KeyCode::Char('x')) });
    press(&mut app, key(KeyCode::Other));
    assert_eq!(typed(&app), (" ".to_string(), 0));
    assert!(matches!(press(&mut app, ctrl('c')), KeyOutcome::Quit));
}

#[test]
fn wide_white_space_ends_words() {
    let mut app = app();
    type_in(&mut app, "one\u{3000}two");
    press(&mut app, ctrl('w'));
    assert_eq!(typed(&app), ("one\u{3000}".to_string(), 4));
}

#[test]
fn typing_is_taken_back() {
    let mut app = app();
    type_in(&mut app, "ab");
    press(&mut app, key(KeyCode::Left));
    press(&mut app, key(KeyCode::Char('x')));
    assert_eq!(typed(&app), ("axb".to_string(), 2));
    press(&mut app, key(KeyCode::Backspace));
    assert_eq!(typed(&app), ("ab".to_string(), 1));
}

#[test]
fn enter_sends_once() {
    let mut app = app();
    assert!(matches!(press(&mut app, key(KeyCode::Enter)), KeyOutcome::Continue));
    type_in(&mut app, "hi");
    press(&mut app, Key { shift: true, ..key(KeyCode::Enter) });
    type_in(&mut app, "you");
    assert_eq!(submit(&mut app, 5), "hi\nyou");
    assert_eq!(rows(&app), vec![" You", "  hi", "  you", ""]);
    assert!(matches!(press(&mut app, key(KeyCode::Enter)), KeyOutcome::Continue));
    type_in(&mut app, "locked");
    assert!(app.draw_input(80, 0).cursor.is_none());
    app.receive(UiEvent::Done);
    assert_eq!(typed(&app), ("".to_string(), 0));
}

#[test]
fn two_escapes_cancel_in_time() {
    let mut app = app();
    assert!(matches!(app.handle_key(key(KeyCode::Esc), 0), KeyOutcome::Continue));
    type_in(&mut app, "x");
    submit(&mut app, 0);
    assert!(matches!(app.handle_key(key(KeyCode::Esc), 1000), KeyOutcome::Continue));
    assert!(matches!(app.handle_key(key(KeyCode::Esc), 2999), KeyOutcome::Cancel));
    assert!(matches!(app.handle_key(key(KeyCode::Esc), 3000), KeyOutcome::Continue));
    assert!(matches!(app.handle_key(key(KeyCode::Esc), 5000), KeyOutcome::Continue));
    assert!(matches!(app.handle_key(key(KeyCode::Esc), 5001), KeyOutcome::Cancel));
}

#[test]
fn the_cancel_warning_goes_away() {
    let mut app = app();
    type_in(&mut app, "x");
    submit(&mut app, 0);
    app.handle_key(key(KeyCode::Esc), 1000);
    app.tick(2999);
    assert!(text_of(&app.draw_header(200)).contains("press Esc again to cancel"));
    app.tick(3000);
    assert!(!text_of(&app.draw_header(200)).contains("press Esc again to cancel"));
}

#[test]
fn the_header_tells_model_status_and_tokens() {
    let mut app = app();
    let header = app.draw_header(200);
    let text = text_of(&header);
    assert!(text.starts_with(" m | idle | Shift+Enter newline · Shift+↑↓ scroll · Ctrl+C quit  "));
    assert!(text.ends_with("  ctx:0/128k (0%) · out:0 "));
    assert_eq!(text.chars().count(), 200);
    assert_eq!(
        header.spans[0].style,
        Style { fg: Some(Color::Black), bg: Some(Color::Gray), bold: true }
    );
    app.receive(UiEvent::PluginsLoaded { count: 3 });
    app.receive(UiEvent::TokenUsage { context: 12_300, output: 1_000 });
    app.receive(UiEvent::TokenUsage { context: 12_800, output: 200 });
    assert_eq!(app.output_tokens(), 1_200);
    type_in(&mut app, "x");
    submit(&mut app, 0);
    let text = text_of(&app.draw_header(100));
    assert!(text.starts_with(" m | plugins:3 | thinking | "));
    assert!(text.ends_with("ctx:12.8k/128k (10%) · out:1.2k "));
    app.handle_key(key(KeyCode::Esc), 1);
    let header = app.draw_header(100);
    assert!(text_of(&header).starts_with(" m | plugins:3 | canceling  press Esc again to cancel   "));
    assert_eq!(text_of(&header).chars().count(), 100);
    assert_eq!(
        header.spans.last().unwrap().style,
        Style { fg: Some(Color::White), bg: Some(Color::Red), bold: false }
    );
    assert_eq!(
        text_of(&app.draw_header(10)),
        " m | plugins:3 | canceling  press Esc again to cancelctx:12.8k/128k (10%) · out:1.2k "
    );
}

#[test]
fn without_a_limit_only_counts_are_told() {
    let mut app = App::new("m".to_string(), 0);
    let text = text_of(&app.draw_header(80));
    assert!(text.trim_end().ends_with("Ctrl+C quit"));
    assert_eq!(text.chars().count(), 80);
    app.receive(UiEvent::TokenUsage { context: 5, output: 6 });
    assert!(text_of(&app.draw_header(80)).ends_with("ctx:5 · out:6 "));
}

#[test]
fn responses_are_shown_as_they_come() {
    let mut app = app();
    for event in [
        UiEvent::ThinkingStart,
        UiEvent::ThinkingDelta("let me ".to_string()),
        UiEvent::ThinkingDelta("see".to_string()),
    ] {
        app.receive(event);
    }
    assert_eq!(rows(&app), vec!["  Thinking...", "  let me see", ""]);
    app.receive(UiEvent::TextDelta("lost".to_string()));
    app.receive(UiEvent::TextStart);
    app.receive(UiEvent::TextDelta("It ".to_string()));
    app.receive(UiEvent::ThinkingDelta("lost".to_string()));
    app.receive(UiEvent::TextDelta("works.".to_string()));
    app.receive(UiEvent::ResponseMeta {
        tokens: 487,
        elapsed_secs: "15.0".to_string(),
        tok_per_sec: "32.5".to_string(),
    });
    app.receive(UiEvent::Error("oops".to_string()));
    assert_eq!(
        rows(&app),
        vec![
            "  Thought",
            "  let me see",
            "",
            " Assistant",
            "  It works.",
            "",
            "  487 tokens · 32.5 tok/s · 15.0s",
            "",
            " Error: oops",
            ""
        ]
    );
}

#[test]
fn tool_calls_have_their_blocks() {
    let mut app = app();
    type_in(&mut app, "x");
    submit(&mut app, 100);
    let call = |name: &str, args: &str| UiEvent::ToolCall {
        name: name.to_string(),
        args_summary: args.to_string(),
    };
    app.receive(call("bash", "ls"));
    let lines = texts(&app.build_lines(40, 100 + 170));
    assert_eq!(
        lines[3..],
        [" [bash] ⠹ running...", " │ args: ls", " │ ", " └", ""].map(|s| s.to_string())
    );
    app.receive(UiEvent::ToolResult { output_summary: "a\nb".to_string() });
    app.receive(call("read", ""));
    app.receive(UiEvent::ToolResult { output_summary: "c".to_string() });
    app.receive(call("odd", ""));
    app.receive(UiEvent::ToolResult { output_summary: "".to_string() });
    assert_eq!(
        rows(&app)[3..],
        [
            " [bash]", " │ args: ls", " │ a", " │ b", " └", "", " [read]", " │ c", " └", "",
            " [odd]", " │ ", ""
        ]
        .map(|s| s.to_string())
    );
}

#[test]
fn numbered_events_find_their_blocks() {
    let mut app = app();
    app.handle_ui_event(DisplayEvent::ThinkingStart);
    app.handle_ui_event(DisplayEvent::ToolCallBegin { index: 0, name: "a".to_string() });
    app.handle_ui_event(DisplayEvent::ToolCallBegin { index: 1, name: "b".to_string() });
    app.handle_ui_event(DisplayEvent::ToolCallArgs { index: 0, args_summary: "A".to_string() });
    app.handle_ui_event(DisplayEvent::ToolCallArgs { index: 7, args_summary: "none".to_string() });
    app.handle_ui_event(DisplayEvent::ToolResult { index: 1, output_summary: "B".to_string() });
    app.handle_ui_event(DisplayEvent::ToolResult { index: 7, output_summary: "none".to_string() });
    assert_eq!(
        rows(&app),
        vec![
            "  Thought", "  ", "", " [a]", " │ args: A", " │ ", " └", "", " [b]", " │ B", " └", ""
        ]
    );
}

#[test]
fn results_without_a_call_are_dropped() {
    let mut app = app();
    app.receive(UiEvent::ToolResult { output_summary: "x".to_string() });
    assert!(rows(&app).is_empty());
}

#[test]
fn colors_tell_who_speaks() {
    let mut app = app();
    type_in(&mut app, "hi");
    submit(&mut app, 0);
    app.receive(UiEvent::TextStart);
    app.receive(UiEvent::TextDelta("yo".to_string()));
    app.receive(UiEvent::Error("e".to_string()));
    let lines = app.build_lines(40, 0);
    let style = |i: usize| lines[i].spans[0].style;
    let ink = |fg: Color, bold: bool| Style { fg: Some(fg), bg: None, bold };
    assert_eq!(style(0), ink(Color::Cyan, true));
    assert_eq!(style(1), ink(Color::Cyan, false));
    assert_eq!(style(3), ink(Color::Green, true));
    assert_eq!(style(4), Style { fg: None, bg: None, bold: false });
    assert_eq!(style(6), ink(Color::Red, false));
}

#[test]
fn pasted_text_goes_in() {
    let mut app = app();
    type_in(&mut app, "ad");
    press(&mut app, key(KeyCode::Left));
    assert!(matches!(app.paste("bc"), PasteStep::Inserted));
    assert_eq!(typed(&app), ("abcd".to_string(), 3));
    assert!(matches!(app.paste(" 'x.png' "), PasteStep::Image(path) if path == "x.png"));
    assert_eq!(typed(&app), ("abcd".to_string(), 3));
    app.paste_as_text(" 'x.png' ");
    assert_eq!(typed(&app), ("abc 'x.png' d".to_string(), 12));
    submit(&mut app, 0);
    assert!(matches!(app.paste("bc"), PasteStep::Ignored));
    app.paste_as_text("bc");
    app.receive(UiEvent::Done);
    assert_eq!(typed(&app), ("".to_string(), 0));
}

#[test]
fn images_go_with_the_message() {
    let mut app = app();
    app.attach_image("/t/a.jpg", "a.jpg".to_string(), Ok(b"foo".to_vec()));
    app.attach_image("/t/b.png", "b.png".to_string(), Ok(vec![]));
    app.attach_image("/t/c.png", "c.png".to_string(), Ok(vec![]));
    press(&mut app, key(KeyCode::Backspace));
    assert_eq!(
        text_of(&app.draw_input(80, 0).attachments.unwrap()),
        " [attached: a.jpg, b.png]  Ctrl+D clear | Backspace remove last"
    );
    assert_eq!(app.input_height(80), 4);
    match app.handle_key(key(KeyCode::Enter), 0) {
        KeyOutcome::Submit { text, images } => {
            assert_eq!(text, "");
            assert_eq!(images.len(), 2);
            assert_eq!(images[0].filename, "a.jpg");
            assert_eq!(images[0].base64_data, "Zm9v");
            assert_eq!(images[0].media_type, "image/jpeg");
            assert_eq!(images[1].media_type, "image/png");
        }
        other => panic!("{:?}", other),
    }
    assert_eq!(rows(&app), vec![" You", "  [img: a.jpg]", "  [img: b.png]", "  ", ""]);
    app.receive(UiEvent::Done);
    app.attach_image("c.bmp", "c.bmp".to_string(), Ok(vec![1]));
    press(&mut app, ctrl('d'));
    assert!(app.draw_input(80, 0).attachments.is_none());
}

#[test]
fn faulty_images_are_told() {
    let mut app = app();
    app.attach_image("a.png", "a.png".to_string(), Ok(vec![0; 20 * 1024 * 1024 + 1]));
    app.attach_image("a.png", "a.png".to_string(), Err("gone".to_string()));
    assert_eq!(
        rows(&app),
        vec![" Error: Image too large (max 20MB)", "", " Error: Failed to read image: gone", ""]
    );
    app.attach_image("a.png", "a.png".to_string(), Ok(vec![0; 3 * 1024]));
    assert!(app.draw_input(80, 0).attachments.is_some());
}

#[test]
fn the_conversation_scrolls() {
    let mut app = app();
    app.receive(UiEvent::TextStart);
    for i in 0..50 {
        app.receive(UiEvent::TextDelta(format!("{}\n", i)));
    }
    // A heading, fifty rows and a blank line.
    let first = |app: &mut App| text_of(&app.draw_conversation(40, 10, 0)[0]);
    assert_eq!(first(&mut app), "  41");
    press(&mut app, Key { shift: true, ..key(KeyCode::Up) });
    assert_eq!(first(&mut app), "  38");
    press(&mut app, key(KeyCode::PageUp));
    assert_eq!(first(&mut app), "  18");
    press(&mut app, Key { shift: true, ..key(KeyCode::Down) });
    assert_eq!(first(&mut app), "  21");
    press(&mut app, key(KeyCode::Up));
    press(&mut app, key(KeyCode::Down));
    assert_eq!(first(&mut app), "  21");
    press(&mut app, key(KeyCode::PageDown));
    press(&mut app, key(KeyCode::PageDown));
    assert_eq!(first(&mut app), "  41");
    for _ in 0..3 {
        press(&mut app, key(KeyCode::PageUp));
    }
    assert_eq!(first(&mut app), " Assistant");
    let all = app.draw_conversation(40, 60, 0);
    assert_eq!(all.len(), 60);
    assert_eq!(text_of(&all[50]), "  49");
    assert_eq!(text_of(&all[59]), "");
}

#[test]
fn the_input_is_wrapped() {
    let mut app = app();
    assert_eq!(app.wrap_input_lines(5), (vec!["".to_string()], 0, 0));
    app.paste("abcde");
    assert_eq!(app.wrap_input_lines(5), (vec!["abcde".to_string()], 1, 0));
    app.paste("\nf");
    let rows = |s: &[&str]| s.iter().map(|r| r.to_string()).collect::<Vec<_>>();
    assert_eq!(app.wrap_input_lines(5), (rows(&["abcde", "f"]), 1, 1));
    assert_eq!(app.wrap_input_lines(3), (rows(&["abc", "de", "f"]), 2, 1));
    assert_eq!(app.wrap_input_lines(0).0, rows(&["a", "b", "c", "d", "e", "f"]));
    app.paste("\n");
    assert_eq!(app.wrap_input_lines(5), (rows(&["abcde", "f", ""]), 2, 0));
    press(&mut app, key(KeyCode::Home));
    for _ in 0..5 {
        press(&mut app, key(KeyCode::Right));
    }
    assert_eq!(app.wrap_input_lines(5).1, 0);
    assert_eq!(app.wrap_input_lines(5).2, 5);
    assert_eq!(app.wrap_input_lines(4).1, 1);
    assert_eq!(app.wrap_input_lines(4).2, 1);
}

#[test]
fn the_input_pane_grows() {
    let mut app = app();
    assert_eq!(app.input_height(80), 3);
    app.paste("one\ntwo");
    assert_eq!(app.input_height(80), 4);
    assert_eq!(app.input_height(4), 3);
    assert_eq!(app.input_height(5), 8);
    app.paste("three four five");
    assert_eq!(app.input_height(5), 12);
    let pane = app.draw_input(12, 0);
    assert_eq!(texts(&pane.lines), vec!["> one", "  twothree f", "  our five"]);
    assert_eq!(pane.cursor, Some((10, 2)));
    submit(&mut app, 1000);
    assert_eq!(app.input_height(5), 3);
    let pane = app.draw_input(12, 1000 + 79);
    assert_eq!(texts(&pane.lines), vec![" ⠋ generating...  Esc to cancel"]);
    assert_eq!(text_of(&app.draw_input(12, 1000 + 80).lines[0]), " ⠙ generating...  Esc to cancel");
    assert_eq!(app.spinner(1000 + 80 * 9), "⠏");
    assert_eq!(app.spinner(1000 + 80 * 10), "⠋");
    app.handle_key(key(KeyCode::Esc), 1000);
    assert!(text_of(&app.draw_input(12, 1000).lines[0]).ends_with("  press Esc again to cancel"));
}

/// Wraps character by character, as the input is typed.
fn wrapped(input: &str, cursor: usize, width: usize) -> (Vec<String>, u16, usize) {
    let width = width.max(1);
    let chars: Vec<char> = input.chars().collect();
    let mut rows: Vec<String> = Vec::new();
    let mut row = String::new();
    let mut place = (0, 0);
    for (i, ch) in chars.iter().enumerate() {
        if *ch != '\n' && row.chars().count() >= width {
            rows.push(std::mem::take(&mut row));
        }
        if i == cursor {
            place = (rows.len(), row.chars().count());
        }
        if *ch == '\n' {
            rows.push(std::mem::take(&mut row));
        } else {
            row.push(*ch);
        }
    }
    if cursor == chars.len() {
        if row.chars().count() >= width {
            rows.push(std::mem::take(&mut row));
            place = (rows.len(), 0);
        } else {
            place = (rows.len(), row.chars().count());
        }
    }
    if !row.is_empty() || chars.is_empty() || input.ends_with('\n') {
        rows.push(row);
    }
    (rows, place.0 as u16, place.1)
}

#[test]
fn every_cursor_has_its_place() {
    for input in ["", "abc", "abcd\n", "\n\n", "ab\ncdéf\n\ngh", "aaaaaaaa", "a\nbbbb\ncccc"] {
        let n = input.chars().count();
        for cursor in 0..=n {
            let mut app = app();
            app.paste(input);
            press(&mut app, key(KeyCode::Home));
            for _ in 0..cursor {
                press(&mut app, key(KeyCode::Right));
            }
            for width in 0..7 {
                let (rows, row, column) = app.wrap_input_lines(width);
                assert_eq!((rows.clone(), row, column), wrapped(input, cursor, width));
                assert_eq!(rows.concat(), input.replace('\n', ""));
                assert!(rows.iter().all(|r| r.chars().count() <= width.max(1)));
            }
        }
    }
}
