//! The agent loop: what is asked of the model, what is shown of its answers, and which
//! tools run in between.

use vstd::prelude::*;
use vstd::utf8::encode_utf8;
use crate::api::{
    calls_view, clone_messages, clone_opt_calls, clone_text, clone_tools, messages_view, opt_view,
    tools_view, ChatRequest, Message, MessageView, ResponseMessage, ResponseView, StreamEvent,
    StreamEventView, StreamOptions, ToolCall, ToolCallView, ToolDef, ToolDefView, Usage,
};
use crate::json::{
    field_text, parse_value, parsed_value, render_value, str_view, text_field, value_text,
};
use crate::number::{decimal, push_decimal};
use crate::plugins::PluginManager;
use crate::text::{
    chars_of, lines_of, replace_all, replaced_all, same_text, split_lines, string_of, views,
};
use crate::tools::{builtin_tools, definitions};

verus! {

broadcast use vstd::seq::group_seq_axioms;

/// What the model is told where nothing else is configured.
pub const SYSTEM_PROMPT: &'static str = "You are a coding agent. You help users with software engineering tasks by reading, writing, and editing files, and running shell commands.\n\n## Guidelines\n- Always read a file before editing it to understand current contents.\n- Prefer edit over write for targeted changes.\n- Verify changes by running relevant commands (tests, linters, type checkers).\n- Be concise and direct. Do not add unnecessary comments unless asked.\n- When running bash, combine related commands with &&.";

/// How many requests one message of the user may lead to.
pub const MAX_TOOL_ITERATIONS: usize = 50;

/// How much of a tool's output the model is sent.
pub const MAX_TOOL_OUTPUT: usize = 50_000;

/// How much of a tool's output is shown.
pub const MAX_SHOWN_OUTPUT: usize = 500;

/// What the interface asks of the agent.
#[derive(Debug)]
pub enum AgentCommand {
    Send(String),
}

/// What the agent tells the interface. The two times of `ResponseMeta` are decimal
/// numbers with one digit behind the point.
#[derive(Debug)]
pub enum UiEvent {
    PluginsLoaded { count: usize },
    ThinkingStart,
    ThinkingDelta(String),
    TextStart,
    TextDelta(String),
    ToolCall { name: String, args_summary: String },
    ToolResult { output_summary: String },
    TokenUsage { context: u64, output: u64 },
    ResponseMeta { tokens: u64, elapsed_secs: String, tok_per_sec: String },
    Error(String),
    Done,
}

pub enum UiEventView {
    PluginsLoaded { count: nat },
    ThinkingStart,
    ThinkingDelta(Seq<char>),
    TextStart,
    TextDelta(Seq<char>),
    ToolCall { name: Seq<char>, args_summary: Seq<char> },
    ToolResult { output_summary: Seq<char> },
    TokenUsage { context: u64, output: u64 },
    ResponseMeta { tokens: u64, elapsed_secs: Seq<char>, tok_per_sec: Seq<char> },
    Error(Seq<char>),
    Done,
}

impl View for UiEvent {
    type V = UiEventView;

    open spec fn view(&self) -> UiEventView {
        match *self {
            UiEvent::PluginsLoaded { count } => UiEventView::PluginsLoaded { count: count as nat },
            UiEvent::ThinkingStart => UiEventView::ThinkingStart,
            UiEvent::ThinkingDelta(text) => UiEventView::ThinkingDelta(text@),
            UiEvent::TextStart => UiEventView::TextStart,
            UiEvent::TextDelta(text) => UiEventView::TextDelta(text@),
            UiEvent::ToolCall { name, args_summary } => UiEventView::ToolCall {
                name: name@,
                args_summary: args_summary@,
            },
            UiEvent::ToolResult { output_summary } => UiEventView::ToolResult {
                output_summary: output_summary@,
            },
            UiEvent::TokenUsage { context, output } => UiEventView::TokenUsage { context, output },
            UiEvent::ResponseMeta { tokens, elapsed_secs, tok_per_sec } =>
                UiEventView::ResponseMeta {
                tokens,
                elapsed_secs: elapsed_secs@,
                tok_per_sec: tok_per_sec@,
            },
            UiEvent::Error(text) => UiEventView::Error(text@),
            UiEvent::Done => UiEventView::Done,
        }
    }
}

/// The views of some interface events.
pub open spec fn ui_events_view(events: Seq<UiEvent>) -> Seq<UiEventView> {
    events.map_values(|e: UiEvent| e@)
}

/// How long a response took and how fast it came, as decimal numbers.
#[derive(Debug)]
pub struct Timing {
    pub elapsed_secs: String,
    pub tok_per_sec: String,
}

/// The first message of every conversation.
pub open spec fn prompt_of(system_prompt: Option<Seq<char>>, cwd: Seq<char>) -> Seq<char> {
    let base = match system_prompt {
        Some(prompt) => prompt,
        None => SYSTEM_PROMPT@,
    };
    base + "\n\nCurrent working directory: "@ + cwd
}

/// At most the first `n` characters of a text.
pub open spec fn first_chars(s: Seq<char>, n: nat) -> Seq<char> {
    if s.len() <= n {
        s
    } else {
        s.take(n as int)
    }
}

/// The length of a text in bytes.
pub open spec fn byte_length(s: Seq<char>) -> usize {
    encode_utf8(s).len() as usize
}

/// What is shown of a tool's output: all of it, or where it is long its beginning and
/// its length.
pub open spec fn shown_output(output: Seq<char>) -> Seq<char> {
    if byte_length(output) > MAX_SHOWN_OUTPUT {
        first_chars(output, MAX_SHOWN_OUTPUT as nat) + "...\n[truncated, "@ + decimal(
            byte_length(output) as nat,
        ) + " chars total]"@
    } else {
        output
    }
}

/// What the model is sent of a tool's output: all of it, or where it is very long its
/// beginning and its length.
pub open spec fn sent_output(output: Seq<char>) -> Seq<char> {
    if byte_length(output) > MAX_TOOL_OUTPUT {
        first_chars(output, MAX_TOOL_OUTPUT as nat) + "\n\n[output truncated, "@ + decimal(
            byte_length(output) as nat,
        ) + " total characters]"@
    } else {
        output
    }
}

/// A text, or a question mark where there is none.
pub open spec fn or_mark(text: Option<Seq<char>>) -> Seq<char> {
    match text {
        Some(text) => text,
        None => "?"@,
    }
}

/// What is shown of a command: its first line.
pub open spec fn command_summary(command: Option<Seq<char>>) -> Seq<char> {
    let lines = lines_of(or_mark(command));
    if lines.len() == 0 {
        "?"@
    } else {
        lines[0]
    }
}

/// What is shown of a file's path: the working directory in it is cut short.
pub open spec fn path_summary(file_path: Option<Seq<char>>, cwd: Seq<char>) -> Seq<char> {
    replaced_all(or_mark(file_path), cwd, "."@)
}

/// Whether a tool works on a file.
pub open spec fn is_file_tool(name: Seq<char>) -> bool {
    name == "read"@ || name == "write"@ || name == "edit"@
}

/// What is shown of a tool's arguments: the first line of a command, the path of a file,
/// else all of them.
pub open spec fn args_summary(
    name: Seq<char>,
    args: serde_json::Value,
    cwd: Seq<char>,
) -> Seq<char> {
    if name == "bash"@ {
        command_summary(text_field(args, "command"@))
    } else if is_file_tool(name) {
        path_summary(text_field(args, "file_path"@), cwd)
    } else {
        value_text(args)
    }
}

/// Sums up a tool's arguments for the interface.
pub fn summarize_args(name: &str, args: &serde_json::Value, cwd: &str) -> (r: String)
    ensures
        r@ == args_summary(name@, *args, cwd@),
{
    if same_text(name, "bash") {
        summarize_command(field_text(args, "command"))
    } else if same_text(name, "read") || same_text(name, "write") || same_text(name, "edit") {
        summarize_path(field_text(args, "file_path"), cwd)
    } else {
        render_value(args)
    }
}

/// Sums up a command for the interface.
pub fn summarize_command(command: Option<&str>) -> (r: String)
    ensures
        r@ == command_summary(str_view(command)),
{
    let command = match command {
        Some(command) => command,
        None => "?",
    };
    let lines = split_lines(command);
    assert(views(lines@).len() == lines@.len());
    if lines.len() == 0 {
        "?".to_string()
    } else {
        assert(views(lines@)[0] == lines@[0]@);
        lines[0].clone()
    }
}

/// Sums up a file's path for the interface.
pub fn summarize_path(file_path: Option<&str>, cwd: &str) -> (r: String)
    ensures
        r@ == path_summary(str_view(file_path), cwd@),
{
    let file_path = match file_path {
        Some(file_path) => file_path,
        None => "?",
    };
    replace_all(file_path, cwd, ".")
}

/// At most the first `n` characters of a text.
fn take_chars(s: &str, n: usize) -> (r: String)
    ensures
        r@ == first_chars(s@, n as nat),
{
    let cs = chars_of(s);
    if cs.len() <= n {
        let r = string_of(&cs, 0, cs.len());
        assert(r@ =~= s@);
        r
    } else {
        let r = string_of(&cs, 0, n);
        assert(r@ =~= s@.take(n as int));
        r
    }
}

/// What is shown of a tool's output.
pub fn show_output(output: &str) -> (r: String)
    ensures
        r@ == shown_output(output@),
{
    let length = output.len();
    if length > MAX_SHOWN_OUTPUT {
        let mut s = take_chars(output, MAX_SHOWN_OUTPUT);
        s.append("...\n[truncated, ");
        push_decimal(&mut s, length as u64);
        s.append(" chars total]");
        s
    } else {
        output.to_string()
    }
}

/// What the model is sent of a tool's output.
pub fn send_output(output: &str) -> (r: String)
    ensures
        r@ == sent_output(output@),
{
    let length = output.len();
    if length > MAX_TOOL_OUTPUT {
        let mut s = take_chars(output, MAX_TOOL_OUTPUT);
        s.append("\n\n[output truncated, ");
        push_decimal(&mut s, length as u64);
        s.append(" total characters]");
        s
    } else {
        output.to_string()
    }
}

/// What the interface is told once the plugins were looked for: how many tools were found,
/// if any, or what went wrong.
pub open spec fn plugins_told(loaded: Result<usize, Seq<char>>) -> Option<UiEventView> {
    match loaded {
        Ok(count) => if count > 0 {
            Some(UiEventView::PluginsLoaded { count: count as nat })
        } else {
            None
        },
        Err(e) => Some(UiEventView::Error("[plugins] "@ + e)),
    }
}

/// What the interface is told at the end of a turn.
pub open spec fn turn_end(outcome: Result<(), Seq<char>>) -> Seq<UiEventView> {
    match outcome {
        Ok(()) => seq![UiEventView::Done],
        Err(e) => seq![UiEventView::Error(e), UiEventView::Done],
    }
}

/// What the interface is told once the plugins were looked for.
pub fn plugins_event(loaded: &Result<usize, String>) -> (r: Option<UiEvent>)
    ensures
        match r {
            Some(event) => Some(event@),
            None => None,
        } == plugins_told(
            match *loaded {
                Ok(count) => Ok(count),
                Err(e) => Err(e@),
            },
        ),
{
    match loaded {
        Ok(count) => {
            if *count > 0 {
                Some(UiEvent::PluginsLoaded { count: *count })
            } else {
                None
            }
        },
        Err(e) => {
            let mut message = "[plugins] ".to_string();
            message.append(e.as_str());
            Some(UiEvent::Error(message))
        },
    }
}

/// What the interface is told at the end of a turn.
pub fn turn_end_events(outcome: Result<(), String>) -> (r: Vec<UiEvent>)
    ensures
        ui_events_view(r@) == turn_end(
            match outcome {
                Ok(()) => Ok(()),
                Err(e) => Err(e@),
            },
        ),
{
    let mut events: Vec<UiEvent> = Vec::new();
    match outcome {
        Ok(()) => {},
        Err(e) => {
            events.push(UiEvent::Error(e));
        },
    }
    events.push(UiEvent::Done);
    assert(ui_events_view(events@) =~= match outcome {
        Ok(()) => seq![UiEventView::Done],
        Err(e) => seq![UiEventView::Error(e@), UiEventView::Done],
    });
    events
}

/// A conversation with the model, as the agent loop sees it.
pub struct SessionView {
    pub model: Seq<char>,
    pub provider: Option<Seq<char>>,
    pub tools: Seq<ToolDefView>,
    pub messages: Seq<MessageView>,
    /// How many requests the user's last message has led to.
    pub iterations: nat,
    /// Whether the current response has begun a tool call.
    pub has_tool_calls: bool,
    /// Whether the current response has shown some thinking.
    pub thinking_started: bool,
    /// Whether the current response has shown some text.
    pub text_started: bool,
    /// The tool calls that still have to run, in order.
    pub pending: Seq<ToolCallView>,
}

/// The request for the next message.
pub open spec fn request_matches(v: SessionView, request: ChatRequest) -> bool {
    &&& request.model@ == v.model
    &&& messages_view(request.messages@) == v.messages
    &&& request.stream
    &&& request.tools matches Some(tools) && tools_view(tools@) == v.tools
    &&& request.stream_options matches Some(options) && options.include_usage
    &&& opt_view(request.provider) == v.provider
}

/// The tool calls of the last answer that no message answers yet, in order. There are
/// none to speak of in a conversation that is out of order: where the calls of an answer
/// are not followed directly by their answers, one after another, where a tool answers
/// a call that is not open, or where an answer has neither content nor calls.
pub open spec fn open_calls(messages: Seq<MessageView>) -> Option<Seq<ToolCallView>>
    decreases messages.len(),
{
    if messages.len() == 0 {
        Some(Seq::empty())
    } else {
        match (open_calls(messages.drop_last()), messages.last()) {
            (Some(open), MessageView::Tool { tool_call_id, .. }) => if open.len() > 0
                && open[0].id == tool_call_id {
                Some(open.drop_first())
            } else {
                None
            },
            (Some(open), MessageView::Assistant { content, tool_calls }) => if open.len() > 0 || (
            content is None && tool_calls is None) {
                None
            } else {
                match tool_calls {
                    Some(calls) => Some(calls),
                    None => Some(Seq::empty()),
                }
            },
            (Some(open), _) => if open.len() > 0 {
                None
            } else {
                Some(open)
            },
            (None, _) => None,
        }
    }
}

/// Whether a state can come about: the turn has sent no more requests than are allowed,
/// and the calls that are pending are those that the conversation leaves open.
pub open spec fn coherent(v: SessionView) -> bool {
    &&& v.iterations <= MAX_TOOL_ITERATIONS
    &&& open_calls(v.messages) == Some(v.pending)
}

/// A message that is added stands last, behind what was there.
pub(crate) proof fn lemma_added(messages: Seq<MessageView>, message: MessageView)
    ensures
        messages.push(message).drop_last() == messages,
        messages.push(message).last() == message,
{
    assert(messages.push(message).drop_last() =~= messages);
}

/// A new turn: the user's message is added and nothing of it has run yet.
pub open spec fn after_command(v: SessionView, text: Seq<char>) -> SessionView {
    SessionView {
        messages: v.messages.push(MessageView::User { content: text }),
        iterations: 0,
        ..v
    }
}

/// A request is sent: it counts, and its response starts afresh.
pub open spec fn after_request(v: SessionView) -> SessionView {
    SessionView {
        iterations: v.iterations + 1,
        has_tool_calls: false,
        thinking_started: false,
        text_started: false,
        ..v
    }
}

/// The message that a finished response adds. One without content and without tool
/// calls gets an empty content.
pub open spec fn assistant_message(message: ResponseView) -> MessageView {
    MessageView::Assistant {
        content: if message.content is None && message.tool_calls is None {
            Some(Seq::empty())
        } else {
            message.content
        },
        tool_calls: message.tool_calls,
    }
}

/// What is shown of the usage that a finished response reports.
pub open spec fn usage_events(
    usage: Option<Usage>,
    elapsed_secs: Seq<char>,
    tok_per_sec: Seq<char>,
) -> Seq<UiEventView> {
    match usage {
        Some(usage) => seq![
            UiEventView::TokenUsage {
                context: usage.prompt_tokens,
                output: usage.completion_tokens,
            },
            UiEventView::ResponseMeta {
                tokens: usage.completion_tokens,
                elapsed_secs,
                tok_per_sec,
            },
        ],
        None => Seq::empty(),
    }
}

/// The session after an event of a response.
pub open spec fn after_event(v: SessionView, event: StreamEventView) -> SessionView {
    match event {
        StreamEventView::ThinkingDelta(_) => SessionView { thinking_started: true, ..v },
        StreamEventView::ContentDelta(_) => SessionView { text_started: true, ..v },
        StreamEventView::ToolCallBegin { .. } => SessionView { has_tool_calls: true, ..v },
        StreamEventView::ToolCallDelta { .. } => v,
        StreamEventView::Done { message, .. } => SessionView {
            messages: v.messages.push(assistant_message(message)),
            pending: match message.tool_calls {
                Some(calls) => calls,
                None => Seq::empty(),
            },
            ..v
        },
    }
}

/// What is shown of an event of a response.
pub open spec fn shown_events(
    v: SessionView,
    event: StreamEventView,
    elapsed_secs: Seq<char>,
    tok_per_sec: Seq<char>,
) -> Seq<UiEventView> {
    match event {
        StreamEventView::ThinkingDelta(text) => if v.thinking_started {
            seq![UiEventView::ThinkingDelta(text)]
        } else {
            seq![UiEventView::ThinkingStart, UiEventView::ThinkingDelta(text)]
        },
        StreamEventView::ContentDelta(text) => if v.text_started {
            seq![UiEventView::TextDelta(text)]
        } else {
            seq![UiEventView::TextStart, UiEventView::TextDelta(text)]
        },
        StreamEventView::ToolCallBegin { .. } => Seq::empty(),
        StreamEventView::ToolCallDelta { .. } => Seq::empty(),
        StreamEventView::Done { usage, .. } => usage_events(usage, elapsed_secs, tok_per_sec),
    }
}

/// The first of the pending calls has run with a result.
pub open spec fn after_result(v: SessionView, result: Seq<char>) -> SessionView {
    SessionView {
        messages: v.messages.push(
            MessageView::Tool {
                tool_call_id: v.pending[0].id,
                content: sent_output(result),
            },
        ),
        pending: v.pending.drop_first(),
        ..v
    }
}

/// What to do about the next request.
#[derive(Debug)]
pub enum RequestStep {
    /// Stop: the turn was cancelled, and the mark for it is to be cleared.
    Cancelled,
    /// Stop with an error.
    Exhausted(String),
    /// Send this.
    Send(ChatRequest),
}

/// A tool call that is to run.
#[derive(Debug)]
pub struct CallPlan {
    pub name: String,
    pub args: serde_json::Value,
    /// Whether a plugin runs it; else it is for the built-in tools.
    pub by_plugin: bool,
    /// What is shown of the call.
    pub event: UiEvent,
}

/// A conversation with the model.
#[derive(Debug)]
pub struct Session {
    model: String,
    provider: Option<String>,
    tools: Vec<ToolDef>,
    messages: Vec<Message>,
    iterations: usize,
    has_tool_calls: bool,
    thinking_started: bool,
    text_started: bool,
    pending: Vec<ToolCall>,
}

impl View for Session {
    type V = SessionView;

    closed spec fn view(&self) -> SessionView {
        SessionView {
            model: self.model@,
            provider: opt_view(self.provider),
            tools: tools_view(self.tools@),
            messages: messages_view(self.messages@),
            iterations: self.iterations as nat,
            has_tool_calls: self.has_tool_calls,
            thinking_started: self.thinking_started,
            text_started: self.text_started,
            pending: calls_view(self.pending@),
        }
    }
}

impl Session {
    /// No turn sends more requests than are allowed, and every tool call is answered in
    /// its place or pending.
    pub open spec fn wf(&self) -> bool {
        coherent(self@)
    }

    /// A conversation that holds the prompt alone. The built-in tools are offered, and
    /// those of the plugins after them.
    pub fn new(
        model: String,
        system_prompt: &Option<String>,
        cwd: &str,
        provider: Option<String>,
        plugins: &PluginManager,
    ) -> (r: Self)
        ensures
            r.wf(),
            r@ == (SessionView {
                model: model@,
                provider: opt_view(provider),
                tools: builtin_tools() + plugins.tools(),
                messages: seq![
                    MessageView::System { content: prompt_of(opt_view(*system_prompt), cwd@) },
                ],
                iterations: 0,
                has_tool_calls: false,
                thinking_started: false,
                text_started: false,
                pending: Seq::empty(),
            }),
    {
        let mut prompt = match system_prompt {
            Some(prompt) => prompt.clone(),
            None => SYSTEM_PROMPT.to_string(),
        };
        prompt.append("\n\nCurrent working directory: ");
        prompt.append(cwd);
        let mut messages: Vec<Message> = Vec::new();
        messages.push(Message::System { content: prompt });
        let mut tools = definitions();
        let mut more = clone_tools(plugins.definitions());
        let ghost first = tools@;
        let ghost second = more@;
        tools.append(&mut more);
        let r = Session {
            model,
            provider,
            tools,
            messages,
            iterations: 0,
            has_tool_calls: false,
            thinking_started: false,
            text_started: false,
            pending: Vec::new(),
        };
        proof {
            assert(tools_view(r.tools@) =~= tools_view(first) + tools_view(second));
            assert(messages_view(r.messages@) =~= seq![
                MessageView::System { content: prompt_of(opt_view(*system_prompt), cwd@) },
            ]);
            assert(calls_view(r.pending@) =~= Seq::empty());
            reveal_with_fuel(open_calls, 2);
            assert(r@.messages.drop_last() =~= Seq::empty());
        }
        r
    }

    /// Starts a turn with the user's message.
    pub fn send(&mut self, command: AgentCommand)
        requires
            old(self).wf(),
            old(self)@.pending.len() == 0,
        ensures
            final(self).wf(),
            command matches AgentCommand::Send(text) ==> final(self)@ == after_command(
                old(self)@,
                text@,
            ),
    {
        match command {
            AgentCommand::Send(input) => {
                self.push_message(Message::User { content: input });
                self.iterations = 0;
                proof {
                    lemma_added(old(self)@.messages, MessageView::User { content: input@ });
                }
            },
        }
    }

    /// Adds a message.
    fn push_message(&mut self, message: Message)
        ensures
            final(self).iterations == old(self).iterations,
            final(self).pending == old(self).pending,
            final(self)@ == (SessionView {
                messages: old(self)@.messages.push(message@),
                ..old(self)@
            }),
    {
        self.messages.push(message);
        assert(messages_view(self.messages@) =~= messages_view(old(self).messages@).push(message@));
    }

    /// Decides about the next request of a turn, once no call is pending. Too many
    /// requests end it with an error, a cancelled turn ends without one; else the whole
    /// conversation is sent.
    pub fn begin_request(&mut self, cancelled: bool) -> (r: RequestStep)
        requires
            old(self).wf(),
            old(self)@.pending.len() == 0,
        ensures
            final(self).wf(),
            if old(self)@.iterations >= MAX_TOOL_ITERATIONS {
                &&& r matches RequestStep::Exhausted(text)
                &&& text@ == "Agent loop exceeded max iterations ("@ + decimal(
                    MAX_TOOL_ITERATIONS as nat,
                ) + ")"@
                &&& final(self)@ == old(self)@
            } else if cancelled {
                r is Cancelled && final(self)@ == old(self)@
            } else {
                &&& r matches RequestStep::Send(request)
                &&& request_matches(old(self)@, request)
                &&& final(self)@ == after_request(old(self)@)
            },
    {
        if self.iterations >= MAX_TOOL_ITERATIONS {
            let mut message = "Agent loop exceeded max iterations (".to_string();
            push_decimal(&mut message, MAX_TOOL_ITERATIONS as u64);
            message.append(")");
            return RequestStep::Exhausted(message);
        }
        if cancelled {
            return RequestStep::Cancelled;
        }
        self.iterations = self.iterations + 1;
        self.has_tool_calls = false;
        self.thinking_started = false;
        self.text_started = false;
        RequestStep::Send(
            ChatRequest {
                model: self.model.clone(),
                messages: clone_messages(&self.messages),
                stream: true,
                tools: Some(clone_tools(&self.tools)),
                stream_options: Some(StreamOptions { include_usage: true }),
                provider: clone_text(&self.provider),
            },
        )
    }

    /// Takes an event of a response and gives what is shown of it. A cancelled turn
    /// takes no more events, and an end comes only where no call is pending.
    pub fn on_event(&mut self, event: StreamEvent, cancelled: bool, timing: Timing) -> (r: Result<
        Vec<UiEvent>,
        String,
    >)
        requires
            old(self).wf(),
            event is Done ==> old(self)@.pending.len() == 0,
        ensures
            final(self).wf(),
            if cancelled {
                &&& r matches Err(e)
                &&& e@ == "cancelled"@
                &&& final(self)@ == old(self)@
            } else {
                &&& r matches Ok(events)
                &&& ui_events_view(events@) == shown_events(
                    old(self)@,
                    event@,
                    timing.elapsed_secs@,
                    timing.tok_per_sec@,
                )
                &&& final(self)@ == after_event(old(self)@, event@)
            },
    {
        if cancelled {
            return Err("cancelled".to_string());
        }
        let mut events: Vec<UiEvent> = Vec::new();
        let ghost expected = shown_events(
            old(self)@,
            event@,
            timing.elapsed_secs@,
            timing.tok_per_sec@,
        );
        match event {
            StreamEvent::ThinkingDelta(text) => {
                if !self.thinking_started {
                    self.thinking_started = true;
                    events.push(UiEvent::ThinkingStart);
                }
                events.push(UiEvent::ThinkingDelta(text));
            },
            StreamEvent::ContentDelta(text) => {
                if !self.text_started {
                    self.text_started = true;
                    events.push(UiEvent::TextStart);
                }
                events.push(UiEvent::TextDelta(text));
            },
            StreamEvent::ToolCallBegin { .. } => {
                self.has_tool_calls = true;
            },
            StreamEvent::ToolCallDelta { .. } => {},
            StreamEvent::Done { message, usage } => {
                match usage {
                    Some(usage) => {
                        events.push(
                            UiEvent::TokenUsage {
                                context: usage.prompt_tokens,
                                output: usage.completion_tokens,
                            },
                        );
                        events.push(
                            UiEvent::ResponseMeta {
                                tokens: usage.completion_tokens,
                                elapsed_secs: timing.elapsed_secs,
                                tok_per_sec: timing.tok_per_sec,
                            },
                        );
                    },
                    None => {},
                }
                self.take_response(message);
            },
        }
        assert(ui_events_view(events@) =~= expected);
        Ok(events)
    }

    /// Takes the message of a finished response; its tool calls have to run next.
    fn take_response(&mut self, message: ResponseMessage)
        requires
            old(self).wf(),
            old(self)@.pending.len() == 0,
        ensures
            final(self).wf(),
            final(self)@ == after_event(
                old(self)@,
                StreamEventView::Done { message: message@, usage: None },
            ),
    {
        let content = if message.content.is_none() && message.tool_calls.is_none() {
            Some(String::new())
        } else {
            message.content
        };
        let calls = clone_opt_calls(&message.tool_calls);
        proof {
            lemma_added(old(self)@.messages, assistant_message(message@));
        }
        self.push_message(Message::Assistant { content, tool_calls: message.tool_calls });
        match calls {
            Some(calls) => {
                self.pending = calls;
            },
            None => {
                self.pending = Vec::new();
                assert(calls_view(self.pending@) =~= Seq::empty());
            },
        }
    }

    /// The tool call that has to run next, if there is one. A plugin's tool goes before
    /// a built-in one of the same name.
    pub fn next_call(&self, plugins: &PluginManager, cwd: &str) -> (r: Option<CallPlan>)
        ensures
            if self@.pending.len() == 0 {
                r is None
            } else {
                &&& r matches Some(plan)
                &&& plan.name@ == self@.pending[0].name
                &&& plan.args == parsed_value(self@.pending[0].arguments)
                &&& plan.by_plugin == plugins.defines(self@.pending[0].name)
                &&& plan.event@ == (UiEventView::ToolCall {
                    name: self@.pending[0].name,
                    args_summary: args_summary(
                        self@.pending[0].name,
                        parsed_value(self@.pending[0].arguments),
                        cwd@,
                    ),
                })
            },
    {
        if self.pending.len() == 0 {
            return None;
        }
        let call = &self.pending[0];
        assert(self@.pending[0] == call@);
        let name = call.function.name.clone();
        let args = parse_value(call.function.arguments.as_str());
        let args_summary = summarize_args(name.as_str(), &args, cwd);
        let by_plugin = plugins.has_tool(name.as_str());
        let event = UiEvent::ToolCall { name: call.function.name.clone(), args_summary };
        Some(CallPlan { name, args, by_plugin, event })
    }

    /// Takes the result of the call that had to run, and gives what is shown of it.
    pub fn record_result(&mut self, result: String) -> (r: UiEvent)
        requires
            old(self).wf(),
            old(self)@.pending.len() > 0,
        ensures
            final(self).wf(),
            r@ == (UiEventView::ToolResult { output_summary: shown_output(result@) }),
            final(self)@ == after_result(old(self)@, result@),
    {
        let output_summary = show_output(result.as_str());
        let content = send_output(result.as_str());
        let call = self.pending.remove(0);
        proof {
            assert(calls_view(self.pending@) =~= calls_view(old(self).pending@).drop_first());
            assert(calls_view(old(self).pending@)[0] == call@);
            lemma_added(
                old(self)@.messages,
                MessageView::Tool { tool_call_id: call.id@, content: content@ },
            );
        }
        self.push_message(Message::Tool { tool_call_id: call.id, content });
        UiEvent::ToolResult { output_summary }
    }

    /// Whether no call is pending.
    pub fn is_settled(&self) -> (r: bool)
        ensures
            r == (self@.pending.len() == 0),
    {
        assert(self@.pending.len() == self.pending@.len());
        self.pending.len() == 0
    }

    /// Whether the turn is over once a response has been dealt with: it began no tool
    /// call.
    pub fn turn_is_over(&self) -> (r: bool)
        ensures
            r == !self@.has_tool_calls,
    {
        !self.has_tool_calls
    }
}

} // verus!
