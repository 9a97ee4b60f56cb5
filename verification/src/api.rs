//! The data of the chat protocol.

use vstd::prelude::*;
use crate::text::{chars_of, string_of};

verus! {

broadcast use vstd::seq::group_seq_axioms;

/// A request for the next message of a chat.
#[derive(Debug)]
pub struct ChatRequest {
    pub model: String,
    pub messages: Vec<Message>,
    pub stream: bool,
    pub tools: Option<Vec<ToolDef>>,
    pub stream_options: Option<StreamOptions>,
    pub provider: Option<String>,
}

#[derive(Debug, Clone, Copy)]
pub struct StreamOptions {
    pub include_usage: bool,
}

/// A message of a chat.
#[allow(inconsistent_fields)]
#[derive(Debug)]
pub enum Message {
    System { content: String },
    User { content: String },
    Assistant { content: Option<String>, tool_calls: Option<Vec<ToolCall>> },
    Tool { tool_call_id: String, content: String },
}

/// A tool call that the model asks for.
#[derive(Debug)]
pub struct ToolCall {
    pub id: String,
    pub call_type: String,
    pub function: FunctionCall,
}

#[derive(Debug)]
pub struct FunctionCall {
    pub name: String,
    pub arguments: String,
}

/// A tool that the model is offered.
#[derive(Debug)]
pub struct ToolDef {
    pub tool_type: String,
    pub function: ToolFunction,
}

#[derive(Debug)]
pub struct ToolFunction {
    pub name: String,
    pub description: String,
    pub parameters: serde_json::Value,
}

#[derive(Debug, Clone, Copy)]
pub struct Usage {
    pub prompt_tokens: u64,
    pub completion_tokens: u64,
    pub total_tokens: u64,
}

/// The message that a streamed response adds up to.
#[derive(Debug)]
pub struct ResponseMessage {
    pub role: String,
    pub content: Option<String>,
    pub tool_calls: Option<Vec<ToolCall>>,
    pub reasoning_content: Option<String>,
}

/// One piece of a streamed response.
#[derive(Debug)]
pub struct StreamChunk {
    pub choices: Vec<StreamChoice>,
    pub usage: Option<Usage>,
}

#[derive(Debug)]
pub struct StreamChoice {
    pub delta: StreamDelta,
    pub finish_reason: Option<String>,
}

#[derive(Debug)]
pub struct StreamDelta {
    pub content: Option<String>,
    pub tool_calls: Option<Vec<StreamToolCall>>,
    pub reasoning_content: Option<String>,
}

#[derive(Debug)]
pub struct StreamToolCall {
    pub index: u32,
    pub id: Option<String>,
    pub call_type: Option<String>,
    pub function: Option<StreamFunctionCall>,
}

#[derive(Debug)]
pub struct StreamFunctionCall {
    pub name: Option<String>,
    pub arguments: Option<String>,
}

/// What a streamed response brings.
#[derive(Debug)]
pub enum StreamEvent {
    ContentDelta(String),
    ThinkingDelta(String),
    ToolCallBegin { index: usize, id: String, name: String },
    ToolCallDelta { index: usize, arguments: String },
    Done { message: ResponseMessage, usage: Option<Usage> },
}

/// The view of an optional string.
pub open spec fn opt_view(s: Option<String>) -> Option<Seq<char>> {
    match s {
        Some(s) => Some(s@),
        None => None,
    }
}

pub struct ToolCallView {
    pub id: Seq<char>,
    pub call_type: Seq<char>,
    pub name: Seq<char>,
    pub arguments: Seq<char>,
}

impl View for ToolCall {
    type V = ToolCallView;

    open spec fn view(&self) -> ToolCallView {
        ToolCallView {
            id: self.id@,
            call_type: self.call_type@,
            name: self.function.name@,
            arguments: self.function.arguments@,
        }
    }
}

/// The views of some tool calls.
pub open spec fn calls_view(calls: Seq<ToolCall>) -> Seq<ToolCallView> {
    calls.map_values(|c: ToolCall| c@)
}

/// The views of optional tool calls.
pub open spec fn opt_calls_view(calls: Option<Vec<ToolCall>>) -> Option<Seq<ToolCallView>> {
    match calls {
        Some(calls) => Some(calls_view(calls@)),
        None => None,
    }
}

#[allow(inconsistent_fields)]
pub enum MessageView {
    System { content: Seq<char> },
    User { content: Seq<char> },
    Assistant { content: Option<Seq<char>>, tool_calls: Option<Seq<ToolCallView>> },
    Tool { tool_call_id: Seq<char>, content: Seq<char> },
}

impl View for Message {
    type V = MessageView;

    open spec fn view(&self) -> MessageView {
        match *self {
            Message::System { content } => MessageView::System { content: content@ },
            Message::User { content } => MessageView::User { content: content@ },
            Message::Assistant { content, tool_calls } => MessageView::Assistant {
                content: opt_view(content),
                tool_calls: opt_calls_view(tool_calls),
            },
            Message::Tool { tool_call_id, content } => MessageView::Tool {
                tool_call_id: tool_call_id@,
                content: content@,
            },
        }
    }
}

/// The views of some messages.
pub open spec fn messages_view(messages: Seq<Message>) -> Seq<MessageView> {
    messages.map_values(|m: Message| m@)
}

pub struct ResponseView {
    pub role: Seq<char>,
    pub content: Option<Seq<char>>,
    pub tool_calls: Option<Seq<ToolCallView>>,
    pub reasoning_content: Option<Seq<char>>,
}

impl View for ResponseMessage {
    type V = ResponseView;

    open spec fn view(&self) -> ResponseView {
        ResponseView {
            role: self.role@,
            content: opt_view(self.content),
            tool_calls: opt_calls_view(self.tool_calls),
            reasoning_content: opt_view(self.reasoning_content),
        }
    }
}

pub enum StreamEventView {
    ContentDelta(Seq<char>),
    ThinkingDelta(Seq<char>),
    ToolCallBegin { index: nat, id: Seq<char>, name: Seq<char> },
    ToolCallDelta { index: nat, arguments: Seq<char> },
    Done { message: ResponseView, usage: Option<Usage> },
}

impl View for StreamEvent {
    type V = StreamEventView;

    open spec fn view(&self) -> StreamEventView {
        match *self {
            StreamEvent::ContentDelta(text) => StreamEventView::ContentDelta(text@),
            StreamEvent::ThinkingDelta(text) => StreamEventView::ThinkingDelta(text@),
            StreamEvent::ToolCallBegin { index, id, name } => StreamEventView::ToolCallBegin {
                index: index as nat,
                id: id@,
                name: name@,
            },
            StreamEvent::ToolCallDelta { index, arguments } => StreamEventView::ToolCallDelta {
                index: index as nat,
                arguments: arguments@,
            },
            StreamEvent::Done { message, usage } => StreamEventView::Done {
                message: message@,
                usage,
            },
        }
    }
}

/// The views of some stream events.
pub open spec fn events_view(events: Seq<StreamEvent>) -> Seq<StreamEventView> {
    events.map_values(|e: StreamEvent| e@)
}

pub struct ToolDefView {
    pub tool_type: Seq<char>,
    pub name: Seq<char>,
    pub description: Seq<char>,
    pub parameters: serde_json::Value,
}

impl View for ToolDef {
    type V = ToolDefView;

    open spec fn view(&self) -> ToolDefView {
        ToolDefView {
            tool_type: self.tool_type@,
            name: self.function.name@,
            description: self.function.description@,
            parameters: self.function.parameters,
        }
    }
}

/// The views of some tool definitions.
pub open spec fn tools_view(tools: Seq<ToolDef>) -> Seq<ToolDefView> {
    tools.map_values(|t: ToolDef| t@)
}

impl Clone for FunctionCall {
    fn clone(&self) -> (r: Self)
        ensures
            r == *self,
    {
        FunctionCall { name: self.name.clone(), arguments: self.arguments.clone() }
    }
}

impl Clone for ToolCall {
    fn clone(&self) -> (r: Self)
        ensures
            r == *self,
    {
        ToolCall {
            id: self.id.clone(),
            call_type: self.call_type.clone(),
            function: self.function.clone(),
        }
    }
}

impl Clone for ToolFunction {
    fn clone(&self) -> (r: Self)
        ensures
            r == *self,
    {
        ToolFunction {
            name: self.name.clone(),
            description: self.description.clone(),
            parameters: self.parameters.clone(),
        }
    }
}

impl Clone for ToolDef {
    fn clone(&self) -> (r: Self)
        ensures
            r == *self,
    {
        ToolDef { tool_type: self.tool_type.clone(), function: self.function.clone() }
    }
}

/// Copies an optional string.
pub fn clone_text(s: &Option<String>) -> (r: Option<String>)
    ensures
        r == *s,
{
    match s {
        Some(s) => Some(s.clone()),
        None => None,
    }
}

/// Copies tool calls.
pub fn clone_calls(calls: &Vec<ToolCall>) -> (r: Vec<ToolCall>)
    ensures
        r@ == calls@,
{
    let mut out: Vec<ToolCall> = Vec::new();
    let mut i: usize = 0;
    while i < calls.len()
        invariant
            i <= calls@.len(),
            out@ == calls@.take(i as int),
        decreases calls@.len() - i,
    {
        out.push(calls[i].clone());
        i = i + 1;
    }
    out
}

/// Copies optional tool calls.
pub fn clone_opt_calls(calls: &Option<Vec<ToolCall>>) -> (r: Option<Vec<ToolCall>>)
    ensures
        opt_calls_view(r) == opt_calls_view(*calls),
{
    match calls {
        Some(calls) => Some(clone_calls(calls)),
        None => None,
    }
}

impl Clone for Message {
    fn clone(&self) -> (r: Self)
        ensures
            r@ == self@,
    {
        match self {
            Message::System { content } => Message::System { content: content.clone() },
            Message::User { content } => Message::User { content: content.clone() },
            Message::Assistant { content, tool_calls } => Message::Assistant {
                content: clone_text(content),
                tool_calls: clone_opt_calls(tool_calls),
            },
            Message::Tool { tool_call_id, content } => Message::Tool {
                tool_call_id: tool_call_id.clone(),
                content: content.clone(),
            },
        }
    }
}

/// Copies messages.
pub fn clone_messages(messages: &Vec<Message>) -> (r: Vec<Message>)
    ensures
        messages_view(r@) == messages_view(messages@),
{
    let mut out: Vec<Message> = Vec::new();
    let mut i: usize = 0;
    while i < messages.len()
        invariant
            i <= messages@.len(),
            messages_view(out@) =~= messages_view(messages@).take(i as int),
        decreases messages@.len() - i,
    {
        let ghost before = out@;
        let copy = messages[i].clone();
        out.push(copy);
        assert(messages_view(out@) =~= messages_view(before).push(copy@));
        i = i + 1;
    }
    out
}

/// Copies tool definitions.
pub fn clone_tools(tools: &Vec<ToolDef>) -> (r: Vec<ToolDef>)
    ensures
        r@ == tools@,
{
    let mut out: Vec<ToolDef> = Vec::new();
    let mut i: usize = 0;
    while i < tools.len()
        invariant
            i <= tools@.len(),
            out@ == tools@.take(i as int),
        decreases tools@.len() - i,
    {
        out.push(tools[i].clone());
        i = i + 1;
    }
    out
}

/// Text without the slashes at its end.
pub open spec fn without_slashes(s: Seq<char>) -> Seq<char>
    decreases s.len(),
{
    if s.len() > 0 && s.last() == '/' {
        without_slashes(s.drop_last())
    } else {
        s
    }
}

/// The address that chat requests go to, below an API's base address.
pub open spec fn chat_address(base_url: Seq<char>) -> Seq<char> {
    without_slashes(base_url) + "/chat/completions"@
}

/// The address that chat requests go to, below an API's base address.
pub fn chat_url(base_url: &str) -> (r: String)
    ensures
        r@ == chat_address(base_url@),
{
    let cs = chars_of(base_url);
    let mut end: usize = cs.len();
    assert(cs@.take(end as int) =~= base_url@);
    while end > 0 && cs[end - 1] == '/'
        invariant
            end <= cs@.len(),
            without_slashes(base_url@) == without_slashes(cs@.take(end as int)),
        decreases end,
    {
        assert(cs@.take(end as int).drop_last() =~= cs@.take(end - 1));
        end = end - 1;
    }
    let mut url = string_of(&cs, 0, end);
    assert(url@ =~= cs@.take(end as int));
    url.append("/chat/completions");
    url
}

/// The authorization header for an API key.
pub fn authorization(api_key: &str) -> (r: String)
    ensures
        r@ == "Bearer "@ + api_key@,
{
    let mut s = "Bearer ".to_string();
    s.append(api_key);
    s
}

/// Slashes at the end go, however many, and nothing else does.
pub proof fn only_slashes_at_the_end_go(s: Seq<char>)
    ensures
        without_slashes(s.push('/')) == without_slashes(s),
        s.len() == 0 || s.last() != '/' ==> without_slashes(s) == s,
{
    assert(s.push('/').drop_last() =~= s);
}

/// Chat requests go to one address below the base address, whether or not slashes stand
/// at its end.
pub proof fn chat_requests_go_below_the_base(base_url: Seq<char>)
    ensures
        chat_address(base_url.push('/')) == chat_address(base_url),
        base_url.len() > 0 && base_url.last() != '/' ==> chat_address(base_url) == base_url
            + "/chat/completions"@,
{
    only_slashes_at_the_end_go(base_url);
}

} // verus!
