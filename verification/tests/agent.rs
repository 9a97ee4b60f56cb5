use coding_agent::agent::{
    plugins_event, send_output, show_output, summarize_args, summarize_command, summarize_path,
    turn_end_events, AgentCommand, RequestStep, Session, Timing, UiEvent,
};
use coding_agent::api::{
    ChatRequest, FunctionCall, Message, ResponseMessage, StreamChoice, StreamChunk, StreamDelta,
    StreamEvent, ToolCall, Usage,
};
use coding_agent::config::{resolve, Args, Config};
use coding_agent::plugins::{
    fault_text, is_plugin_file, load_report, plugin_reply, PluginFault, PluginManager,
    PluginOutcome, PluginTool,
};
use coding_agent::stream::ChatStream;

fn session(plugins: &PluginManager) -> Session {
    Session::new("m".to_string(), &None, "/work", Some("p".to_string()), plugins)
}

fn timing() -> Timing {
    Timing { elapsed_secs: "1.5".to_string(), tok_per_sec: "2.0".to_string() }
}

fn tool_call(id: &str, name: &str, arguments: &str) -> ToolCall {
    ToolCall {
        id: id.to_string(),
        call_type: "function".to_string(),
        function: FunctionCall { name: name.to_string(), arguments: arguments.to_string() },
    }
}

fn done(content: Option<&str>, tool_calls: Option<Vec<ToolCall>>, usage: Option<Usage>) -> StreamEvent {
    StreamEvent::Done {
        message: ResponseMessage {
            role: "assistant".to_string(),
            content: content.map(|s| s.to_string()),
            tool_calls,
            reasoning_content: None,
        },
        usage,
    }
}

fn sent(session: &mut Session) -> ChatRequest {
    match session.begin_request(false) {
        RequestStep::Send(request) => request,
        other => panic!("{:?}", other),
    }
}

fn send(session: &mut Session, text: &str) {
    session.send(AgentCommand::Send(text.to_string()));
}

fn plugin(name: &str) -> PluginTool {
    PluginTool {
        name: name.to_string(),
        description: "d".to_string(),
        parameters: serde_json::from_str(r#"{"type":"object"}"#).unwrap(),
    }
}

#[test]
fn requests_hold_the_conversation() {
    let mut plugins = PluginManager::new();
    assert_eq!(plugins.load_file(vec![plugin("extra")], None), Ok(1));
    let mut session = session(&plugins);
    send(&mut session, "hi");
    let request = sent(&mut session);
    assert_eq!(request.model, "m");
    assert!(request.stream);
    assert!(request.stream_options.unwrap().include_usage);
    assert_eq!(request.provider.as_deref(), Some("p"));
    let tools = request.tools.unwrap();
    assert_eq!(tools[0].function.parameters["required"][0], "command");
    assert_eq!(tools[4].function.parameters["type"], "object");
    let names: Vec<String> = tools.into_iter().map(|t| t.function.name).collect();
    assert_eq!(names, vec!["bash", "read", "write", "edit", "extra"]);
    assert_eq!(request.messages.len(), 2);
    match &request.messages[0] {
        Message::System { content } => {
            assert!(content.starts_with("You are a coding agent. You help users"));
            assert!(content.ends_with("with &&.\n\nCurrent working directory: /work"));
        }
        other => panic!("{:?}", other),
    }
    assert!(matches!(&request.messages[1], Message::User { content } if content == "hi"));
}

#[test]
fn a_prompt_of_ones_own_is_taken() {
    let mut session =
        Session::new("m".to_string(), &Some("Be brief.".to_string()), ".", None, &PluginManager::new());
    let request = sent(&mut session);
    assert!(matches!(&request.messages[0], Message::System { content }
        if content == "Be brief.\n\nCurrent working directory: ."));
    assert!(request.provider.is_none());
}

#[test]
fn text_is_shown_as_it_comes() {
    let plugins = PluginManager::new();
    let mut session = session(&plugins);
    send(&mut session, "hi");
    sent(&mut session);
    let mut shown = Vec::new();
    for event in [
        StreamEvent::ThinkingDelta("a".to_string()),
        StreamEvent::ThinkingDelta("b".to_string()),
        StreamEvent::ContentDelta("c".to_string()),
        StreamEvent::ContentDelta("d".to_string()),
    ] {
        shown.extend(session.on_event(event, false, timing()).unwrap());
    }
    assert_eq!(
        format!("{:?}", shown),
        r#"[ThinkingStart, ThinkingDelta("a"), ThinkingDelta("b"), TextStart, TextDelta("c"), TextDelta("d")]"#
    );
    let usage = Usage { prompt_tokens: 7, completion_tokens: 3, total_tokens: 10 };
    let end = session.on_event(done(Some("cd"), None, Some(usage)), false, timing()).unwrap();
    assert_eq!(
        format!("{:?}", end),
        r#"[TokenUsage { context: 7, output: 3 }, ResponseMeta { tokens: 3, elapsed_secs: "1.5", tok_per_sec: "2.0" }]"#
    );
    assert!(session.turn_is_over());
    assert!(session.next_call(&plugins, "/work").is_none());
}

#[test]
fn an_empty_answer_gets_an_empty_content() {
    let plugins = PluginManager::new();
    let mut session = session(&plugins);
    send(&mut session, "hi");
    sent(&mut session);
    assert!(session.on_event(done(None, None, None), false, timing()).unwrap().is_empty());
    let request = sent(&mut session);
    assert!(matches!(&request.messages[2], Message::Assistant { content: Some(text), tool_calls: None }
        if text.is_empty()));
}

#[test]
fn every_call_is_answered_in_order() {
    let mut plugins = PluginManager::new();
    plugins.load_file(vec![plugin("extra"), plugin("read")], None).unwrap();
    let mut session = session(&plugins);
    send(&mut session, "hi");
    sent(&mut session);
    session
        .on_event(
            StreamEvent::ToolCallBegin { index: 0, id: "1".to_string(), name: "bash".to_string() },
            false,
            timing(),
        )
        .unwrap();
    let calls = vec![
        tool_call("1", "bash", r#"{"command":"ls\npwd"}"#),
        tool_call("2", "read", "not json"),
    ];
    assert!(session.is_settled());
    session.on_event(done(None, Some(calls), None), false, timing()).unwrap();
    assert!(!session.turn_is_over());
    assert!(!session.is_settled());

    let plan = session.next_call(&plugins, "/work").unwrap();
    assert_eq!(plan.name, "bash");
    assert!(!plan.by_plugin);
    assert_eq!(plan.args["command"], "ls\npwd");
    assert!(matches!(&plan.event, UiEvent::ToolCall { name, args_summary }
        if name == "bash" && args_summary == "ls"));
    assert!(matches!(session.record_result("out".to_string()), UiEvent::ToolResult { output_summary }
        if output_summary == "out"));

    let plan = session.next_call(&plugins, "/work").unwrap();
    assert!(plan.by_plugin);
    assert!(plan.args.is_null());
    assert!(matches!(&plan.event, UiEvent::ToolCall { args_summary, .. } if args_summary == "?"));
    assert!(!session.is_settled());
    session.record_result("second".to_string());
    assert!(session.is_settled());
    assert!(session.next_call(&plugins, "/work").is_none());

    let request = sent(&mut session);
    assert_eq!(request.messages.len(), 5);
    assert!(matches!(&request.messages[2], Message::Assistant { content: None, tool_calls: Some(c) }
        if c.len() == 2));
    assert!(matches!(&request.messages[3], Message::Tool { tool_call_id, content }
        if tool_call_id == "1" && content == "out"));
    assert!(matches!(&request.messages[4], Message::Tool { tool_call_id, content }
        if tool_call_id == "2" && content == "second"));
    assert!(session.turn_is_over());
}

#[test]
fn turns_stop_after_fifty_requests() {
    let mut session = session(&PluginManager::new());
    send(&mut session, "hi");
    for _ in 0..50 {
        sent(&mut session);
    }
    assert!(matches!(session.begin_request(true), RequestStep::Exhausted(text)
        if text == "Agent loop exceeded max iterations (50)"));
    send(&mut session, "again");
    sent(&mut session);
}

#[test]
fn cancelled_turns_stop() {
    let mut session = session(&PluginManager::new());
    send(&mut session, "hi");
    assert!(matches!(session.begin_request(true), RequestStep::Cancelled));
    sent(&mut session);
    let refused = session.on_event(StreamEvent::ContentDelta("x".to_string()), true, timing());
    assert_eq!(refused.unwrap_err(), "cancelled");
}

#[test]
fn long_outputs_are_cut() {
    let short = "x".repeat(500);
    assert_eq!(show_output(&short), short);
    let long = "\u{e9}".repeat(600);
    assert_eq!(
        show_output(&long),
        format!("{}...\n[truncated, 1200 chars total]", "\u{e9}".repeat(500))
    );
    let wide = "\u{e9}".repeat(251);
    assert_eq!(show_output(&wide), format!("{}...\n[truncated, 502 chars total]", wide));
    let fits = "y".repeat(50_000);
    assert_eq!(send_output(&fits), fits);
    let over = "y".repeat(50_001);
    assert_eq!(
        send_output(&over),
        format!("{}\n\n[output truncated, 50001 total characters]", fits)
    );
}

#[test]
fn arguments_are_summed_up() {
    let args = |text: &str| -> serde_json::Value { serde_json::from_str(text).unwrap() };
    assert_eq!(summarize_args("bash", &args(r#"{"command":"a\r\nb"}"#), "/w"), "a");
    assert_eq!(summarize_args("bash", &args(r#"{"command":""}"#), "/w"), "?");
    assert_eq!(summarize_args("bash", &args("{}"), "/w"), "?");
    assert_eq!(summarize_args("edit", &args(r#"{"file_path":"/w/a/w/b"}"#), "/w"), "./a./b");
    assert_eq!(summarize_args("read", &args(r#"{"file_path":"ab"}"#), ""), ".a.b.");
    assert_eq!(summarize_args("write", &args("{}"), "/w"), "?");
    assert_eq!(summarize_args("other", &args(r#"{ "b": [1, 2], "a": null }"#), "/w"), r#"{"a":null,"b":[1,2]}"#);
}

#[test]
fn the_interface_is_told_of_plugins_and_ends() {
    assert!(matches!(plugins_event(&Ok(2)), Some(UiEvent::PluginsLoaded { count: 2 })));
    assert!(plugins_event(&Ok(0)).is_none());
    assert!(matches!(plugins_event(&Err("e".to_string())), Some(UiEvent::Error(text))
        if text == "[plugins] e"));
    assert_eq!(format!("{:?}", turn_end_events(Ok(()))), "[Done]");
    assert_eq!(
        format!("{:?}", turn_end_events(Err("e".to_string()))),
        r#"[Error("e"), Done]"#
    );
}

#[test]
fn plugins_are_taken_in_order() {
    let mut plugins = PluginManager::new();
    assert!(!plugins.has_tool("a"));
    assert_eq!(plugins.load_file(vec![plugin("a"), plugin("b")], None), Ok(2));
    assert_eq!(
        plugins.load_file(vec![plugin("c")], Some("bad".to_string())),
        Err("bad".to_string())
    );
    let names: Vec<&str> =
        plugins.definitions().iter().map(|t| t.function.name.as_str()).collect();
    assert_eq!(names, vec!["a", "b"]);
    assert!(plugins.has_tool("b") && !plugins.has_tool("c") && !plugins.has_tool("ab"));
}

#[test]
fn faulty_plugins_are_skipped() {
    let mut plugins = PluginManager::new();
    let fault = fault_text(&PluginFault::Handler, "no function");
    assert_eq!(
        plugins.load_file(vec![plugin("b")], Some(fault.clone())),
        Err("Missing 'handler': no function".to_string())
    );
    assert_eq!(plugins.load_file(vec![plugin("g")], None), Ok(1));
    assert!(plugins.has_tool("g") && !plugins.has_tool("b"));
    assert_eq!(plugins.definitions().len(), 1);
}

#[test]
fn plugin_files_end_in_lua() {
    for (name, is) in [("a.lua", true), (".lua", false), ("a.lu", false), ("a.LUA", false), ("a.b.lua", true), ("lua", false)] {
        let by_path = std::path::Path::new(name).extension().is_some_and(|ext| ext == "lua");
        assert_eq!(is_plugin_file(name), is);
        assert_eq!(by_path, is);
    }
}

#[test]
fn plugin_faults_are_told() {
    let cases = [
        (PluginFault::Directory("d".to_string()), "Cannot read 'd': e"),
        (PluginFault::Read, "Read error: e"),
        (PluginFault::Script("p".to_string()), "Error in p: e"),
        (PluginFault::Definition, "Bad tool definition: e"),
        (PluginFault::Name, "Missing 'name': e"),
        (PluginFault::Description, "Missing 'description': e"),
        (PluginFault::Parameters, "Missing 'parameters': e"),
        (PluginFault::Handler, "Missing 'handler': e"),
        (PluginFault::Schema("n".to_string()), "Invalid parameters for 'n': e"),
    ];
    for (fault, text) in cases {
        assert_eq!(fault_text(&fault, "e"), text);
    }
    assert_eq!(load_report("f", &Ok(3)), "[plugins] loaded 3 tool(s) from f");
    assert_eq!(load_report("f", &Err("e".to_string())), "[plugins] error in f: e");
}

#[test]
fn plugin_calls_are_answered() {
    let e = || "e".to_string();
    assert_eq!(plugin_reply("n", PluginOutcome::NoRegistry(e())), "Registry error: e");
    assert_eq!(plugin_reply("n", PluginOutcome::NoHandler(e())), "No handler for 'n': e");
    assert_eq!(plugin_reply("n", PluginOutcome::BadArguments(e())), "Args conversion error: e");
    assert_eq!(plugin_reply("n", PluginOutcome::Failed(e())), "Plugin 'n' error: e");
    assert_eq!(plugin_reply("n", PluginOutcome::Returned("r".to_string())), "r");
}

fn no_args() -> Args {
    Args {
        api_url: None,
        model: None,
        api_key: None,
        system_prompt: None,
        plugins: None,
        context_limit: None,
        provider: None,
    }
}

fn no_config() -> Config {
    Config {
        api_url: None,
        model: None,
        api_key: None,
        system_prompt: None,
        plugins: None,
        context_limit: None,
        provider: None,
    }
}

#[test]
fn defaults_hold_where_nothing_is_configured() {
    let r = resolve(no_args(), no_config());
    assert_eq!(r.api_url, "http://localhost:11434/v1");
    assert_eq!(r.model, "qwen3:30b-a3b");
    assert_eq!(r.api_key, None);
    assert_eq!(r.system_prompt, None);
    assert_eq!(r.plugins.as_deref(), Some("./plugins"));
    assert_eq!(r.context_limit, 128000);
    assert_eq!(r.provider, None);
}

#[test]
fn flags_go_before_the_configuration() {
    let mut args = no_args();
    args.model = Some("flag".to_string());
    args.context_limit = Some(0);
    let mut cfg = no_config();
    cfg.model = Some("file".to_string());
    cfg.api_url = Some("url".to_string());
    cfg.context_limit = Some(5);
    cfg.api_key = Some("key".to_string());
    cfg.plugins = Some("dir".to_string());
    cfg.provider = Some("prov".to_string());
    cfg.system_prompt = Some("prompt".to_string());
    let r = resolve(args, cfg);
    assert_eq!(r.model, "flag");
    assert_eq!(r.api_url, "url");
    assert_eq!(r.context_limit, 0);
    assert_eq!(r.api_key.as_deref(), Some("key"));
    assert_eq!(r.plugins.as_deref(), Some("dir"));
    assert_eq!(r.provider.as_deref(), Some("prov"));
    assert_eq!(r.system_prompt.as_deref(), Some("prompt"));
}

#[test]
fn plain_arguments_are_summed_up() {
    assert_eq!(summarize_command(Some("a b\nc")), "a b");
    assert_eq!(summarize_command(Some("\n")), "");
    assert_eq!(summarize_command(Some("")), "?");
    assert_eq!(summarize_command(None), "?");
    assert_eq!(summarize_path(Some("/w/x"), "/w"), "./x");
    assert_eq!(summarize_path(None, "/w"), "?");
}

#[test]
fn answers_are_kept_as_they_were_shown() {
    let plugins = PluginManager::new();
    let mut session = session(&plugins);
    send(&mut session, "hi");
    sent(&mut session);
    let mut stream = ChatStream::new();
    let mut text = String::new();
    let mut starts = 0;
    for (piece, finish) in [("It ", None), ("works", None), (".", Some("stop"))] {
        let chunk = StreamChunk {
            choices: vec![StreamChoice {
                delta: StreamDelta {
                    content: Some(piece.to_string()),
                    tool_calls: None,
                    reasoning_content: None,
                },
                finish_reason: finish.map(|s| s.to_string()),
            }],
            usage: None,
        };
        for event in stream.accept(&chunk).0 {
            for shown in session.on_event(event, false, timing()).unwrap() {
                match shown {
                    UiEvent::TextStart => starts += 1,
                    UiEvent::TextDelta(delta) => text.push_str(&delta),
                    other => panic!("{:?}", other),
                }
            }
        }
    }
    assert_eq!((text.as_str(), starts), ("It works.", 1));
    let request = sent(&mut session);
    assert!(matches!(&request.messages[2], Message::Assistant { content: Some(kept), .. }
        if *kept == text));
}
