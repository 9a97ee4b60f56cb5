//! Streamed responses: from the bytes that arrive to the events that they mean.

use vstd::prelude::*;
use vstd::utf8::{decode_utf8, encode_utf8, encode_utf8_decode_utf8, valid_utf8};
use crate::api::{
    calls_view, events_view, opt_view, FunctionCall, ResponseMessage, ResponseView, StreamChunk,
    StreamEvent, StreamEventView, StreamFunctionCall, StreamToolCall, ToolCall, ToolCallView, Usage,
};
use crate::text::{
    chars_of, find_char, has_prefix, index_of, lemma_index_of, matches_at, same_text, string_of,
    trim_end_index, trim_start_index, trimmed,
};

verus! {

broadcast use vstd::seq::group_seq_axioms;

/// What `std::str::from_utf8` says of bytes that it refuses.
pub uninterp spec fn utf8_error_text(bytes: Seq<u8>) -> Seq<char>;

/// `std::str::from_utf8`: the text whose UTF-8 encoding the bytes are, and an error,
/// whose words are a function of the bytes, where there is none.
#[verifier::external_body]
fn decode_text(bytes: &[u8]) -> (r: Result<&str, String>)
    ensures
        r is Ok <==> valid_utf8(bytes@),
        r matches Ok(s) ==> encode_utf8(s@) == bytes@,
        r matches Err(e) ==> e@ == utf8_error_text(bytes@),
{
    match std::str::from_utf8(bytes) {
        Ok(text) => Ok(text),
        Err(e) => Err(e.to_string()),
    }
}

/// A line of a stream that carries data: the end mark, or a piece of JSON.
#[derive(Debug)]
pub enum StreamLine {
    Done,
    Data(String),
}

pub enum StreamLineView {
    Done,
    Data(Seq<char>),
}

impl View for StreamLine {
    type V = StreamLineView;

    open spec fn view(&self) -> StreamLineView {
        match *self {
            StreamLine::Done => StreamLineView::Done,
            StreamLine::Data(data) => StreamLineView::Data(data@),
        }
    }
}

/// The views of some stream lines.
pub open spec fn stream_lines_view(lines: Seq<StreamLine>) -> Seq<StreamLineView> {
    lines.map_values(|l: StreamLine| l@)
}

/// The data of a line, if it carries any: white space around the line is left aside,
/// and `data: ` in front marks the data.
pub open spec fn line_data(line: Seq<char>) -> Seq<StreamLineView> {
    let text = trimmed(line);
    if !has_prefix(text, "data: "@) {
        Seq::empty()
    } else if text.skip(6) == "[DONE]"@ {
        seq![StreamLineView::Done]
    } else {
        seq![StreamLineView::Data(text.skip(6))]
    }
}

/// The data of the complete lines of a text.
pub open spec fn complete_data(text: Seq<char>) -> Seq<StreamLineView>
    decreases text.len(),
{
    let at = index_of(text, '\n');
    if at < 0 || at >= text.len() {
        Seq::empty()
    } else {
        line_data(text.take(at)) + complete_data(text.skip(at + 1))
    }
}

/// What follows the last complete line of a text.
pub open spec fn incomplete_rest(text: Seq<char>) -> Seq<char>
    decreases text.len(),
{
    let at = index_of(text, '\n');
    if at < 0 || at >= text.len() {
        text
    } else {
        incomplete_rest(text.skip(at + 1))
    }
}

/// How a stream's bytes are cut into reads does not matter: the data of a text that
/// arrives in two parts is the data of the whole, and so is what is left over.
pub proof fn reads_can_be_cut_anywhere(a: Seq<char>, b: Seq<char>)
    ensures
        complete_data(a + b) == complete_data(a) + complete_data(incomplete_rest(a) + b),
        incomplete_rest(a + b) == incomplete_rest(incomplete_rest(a) + b),
    decreases a.len(),
{
    let at = index_of(a, '\n');
    lemma_index_of(a, '\n');
    if at >= a.len() {
        assert(complete_data(a) =~= Seq::empty());
        assert(complete_data(a + b) =~= complete_data(a) + complete_data(a + b));
    } else {
        reads_can_be_cut_anywhere(a.skip(at + 1), b);
        assert forall|j: int| 0 <= j < at implies (a + b)[j] != '\n' by {
            assert((a + b)[j] == a[j]);
        }
        crate::text::lemma_index_of_is(a + b, '\n', at);
        assert((a + b).take(at) =~= a.take(at));
        assert((a + b).skip(at + 1) =~= a.skip(at + 1) + b);
        assert(complete_data(a + b) =~= complete_data(a) + complete_data(incomplete_rest(a) + b));
    }
}

/// What a chat request failed at.
#[derive(Debug)]
pub enum ChatFault {
    Serialize,
    Request,
    Read,
    /// The piece of JSON that is no chunk.
    Chunk(String),
}

/// What is said of a chat request that failed.
pub open spec fn chat_fault_words(fault: ChatFault, error: Seq<char>) -> Seq<char> {
    match fault {
        ChatFault::Serialize => "serialize: "@ + error,
        ChatFault::Request => "API request failed: "@ + error,
        ChatFault::Read => "read stream: "@ + error,
        ChatFault::Chunk(data) => "parse chunk: "@ + error + " - "@ + data@,
    }
}

/// Says what a chat request failed at.
pub fn chat_fault_text(fault: &ChatFault, error: &str) -> (r: String)
    ensures
        r@ == chat_fault_words(*fault, error@),
{
    let mut message = match fault {
        ChatFault::Serialize => "serialize: ".to_string(),
        ChatFault::Request => "API request failed: ".to_string(),
        ChatFault::Read => "read stream: ".to_string(),
        ChatFault::Chunk(_) => "parse chunk: ".to_string(),
    };
    message.append(error);
    match fault {
        ChatFault::Chunk(data) => {
            message.append(" - ");
            message.append(data.as_str());
        },
        _ => {},
    }
    message
}

/// A tool call that a stream is still spelling out.
#[derive(Debug)]
pub struct PendingCall {
    pub id: String,
    pub name: String,
    pub arguments: String,
}

pub struct PendingCallView {
    pub id: Seq<char>,
    pub name: Seq<char>,
    pub arguments: Seq<char>,
}

impl View for PendingCall {
    type V = PendingCallView;

    open spec fn view(&self) -> PendingCallView {
        PendingCallView { id: self.id@, name: self.name@, arguments: self.arguments@ }
    }
}

/// The views of some pending calls.
pub open spec fn pending_view(calls: Seq<PendingCall>) -> Seq<PendingCallView> {
    calls.map_values(|c: PendingCall| c@)
}

/// What a stream has added up to so far.
pub struct Response {
    pub content: Seq<char>,
    pub reasoning: Seq<char>,
    pub calls: Seq<PendingCallView>,
}

/// A state of a response and the events that led to it.
pub struct Progress {
    pub response: Response,
    pub events: Seq<StreamEventView>,
}

/// A text, or nothing where it is empty.
pub open spec fn nonempty(s: Seq<char>) -> Option<Seq<char>> {
    if s.len() == 0 {
        None
    } else {
        Some(s)
    }
}

/// The tool call that a pending one becomes.
pub open spec fn finished_call(call: PendingCallView) -> ToolCallView {
    ToolCallView {
        id: call.id,
        call_type: "function"@,
        name: call.name,
        arguments: call.arguments,
    }
}

/// The message that a response amounts to.
pub open spec fn response_message(response: Response) -> ResponseView {
    ResponseView {
        role: "assistant"@,
        content: nonempty(response.content),
        tool_calls: if response.calls.len() == 0 {
            None
        } else {
            Some(response.calls.map_values(|c: PendingCallView| finished_call(c)))
        },
        reasoning_content: nonempty(response.reasoning),
    }
}

/// The pending calls with empty ones added until there are `n`.
pub open spec fn padded(calls: Seq<PendingCallView>, n: nat) -> Seq<PendingCallView> {
    if calls.len() >= n {
        calls
    } else {
        calls + Seq::new(
            (n - calls.len()) as nat,
            |i: int|
                PendingCallView { id: Seq::empty(), name: Seq::empty(), arguments: Seq::empty() },
        )
    }
}

/// A piece of thinking is added and told.
pub open spec fn with_reasoning(p: Progress, delta: Option<Seq<char>>) -> Progress {
    match delta {
        Some(text) => Progress {
            response: Response { reasoning: p.response.reasoning + text, ..p.response },
            events: p.events.push(StreamEventView::ThinkingDelta(text)),
        },
        None => p,
    }
}

/// A piece of content is added and told.
pub open spec fn with_content(p: Progress, delta: Option<Seq<char>>) -> Progress {
    match delta {
        Some(text) => Progress {
            response: Response { content: p.response.content + text, ..p.response },
            events: p.events.push(StreamEventView::ContentDelta(text)),
        },
        None => p,
    }
}

/// A call's identifier is set.
pub open spec fn with_call_id(calls: Seq<PendingCallView>, at: int, id: Option<Seq<char>>) -> Seq<
    PendingCallView,
> {
    match id {
        Some(id) => calls.update(at, PendingCallView { id, ..calls[at] }),
        None => calls,
    }
}

/// A call's name is set and the call is told to begin.
pub open spec fn with_call_name(p: Progress, at: nat, name: Option<Seq<char>>) -> Progress {
    match name {
        Some(name) => Progress {
            response: Response {
                calls: p.response.calls.update(
                    at as int,
                    PendingCallView { name, ..p.response.calls[at as int] },
                ),
                ..p.response
            },
            events: p.events.push(
                StreamEventView::ToolCallBegin {
                    index: at,
                    id: p.response.calls[at as int].id,
                    name,
                },
            ),
        },
        None => p,
    }
}

/// A piece of a call's arguments is added and told.
pub open spec fn with_call_arguments(p: Progress, at: nat, delta: Option<Seq<char>>) -> Progress {
    match delta {
        Some(arguments) => Progress {
            response: Response {
                calls: p.response.calls.update(
                    at as int,
                    PendingCallView {
                        arguments: p.response.calls[at as int].arguments + arguments,
                        ..p.response.calls[at as int]
                    },
                ),
                ..p.response
            },
            events: p.events.push(StreamEventView::ToolCallDelta { index: at, arguments }),
        },
        None => p,
    }
}

/// A piece of a tool call is added.
pub open spec fn with_call(p: Progress, call: StreamToolCall) -> Progress {
    let at = call.index as nat;
    let known = with_call_id(padded(p.response.calls, at + 1), at as int, opt_view(call.id));
    let named = Progress { response: Response { calls: known, ..p.response }, ..p };
    match call.function {
        Some(function) => with_call_arguments(
            with_call_name(named, at, opt_view(function.name)),
            at,
            opt_view(function.arguments),
        ),
        None => named,
    }
}

/// Pieces of tool calls are added in order.
pub open spec fn with_calls(p: Progress, calls: Seq<StreamToolCall>) -> Progress
    decreases calls.len(),
{
    if calls.len() == 0 {
        p
    } else {
        with_call(with_calls(p, calls.drop_last()), calls.last())
    }
}

/// Whether a reason to finish ends the response.
pub open spec fn finishes(reason: Option<String>) -> bool {
    match reason {
        Some(reason) => reason@ == "stop"@ || reason@ == "tool_calls"@,
        None => false,
    }
}

/// The end of a response is told.
pub open spec fn with_done(p: Progress, usage: Option<Usage>) -> Progress {
    Progress {
        events: p.events.push(
            StreamEventView::Done { message: response_message(p.response), usage },
        ),
        ..p
    }
}

/// What the first choice of a chunk adds, apart from an end.
pub open spec fn with_delta(p: Progress, chunk: StreamChunk) -> Progress {
    let delta = chunk.choices@[0].delta;
    let told = with_content(
        with_reasoning(p, opt_view(delta.reasoning_content)),
        opt_view(delta.content),
    );
    match delta.tool_calls {
        Some(calls) => with_calls(told, calls@),
        None => told,
    }
}

/// Whether a chunk ends the response: it reports the usage, or its first choice gives
/// a reason to finish.
pub open spec fn ends_response(chunk: StreamChunk) -> bool {
    chunk.usage is Some || (chunk.choices@.len() > 0 && finishes(chunk.choices@[0].finish_reason))
}

/// What a chunk adds to a response and the events that it means. A chunk with the usage
/// ends the response; else its first choice counts, which may end it too.
pub open spec fn after_chunk(response: Response, chunk: StreamChunk) -> Progress {
    let p = Progress { response, events: Seq::empty() };
    if chunk.usage is Some {
        with_done(p, chunk.usage)
    } else if chunk.choices@.len() == 0 {
        p
    } else if finishes(chunk.choices@[0].finish_reason) {
        with_done(with_delta(p, chunk), None)
    } else {
        with_delta(p, chunk)
    }
}

/// What a line of a stream brings: the end mark, or a chunk.
pub enum Arrival {
    End,
    Chunk(StreamChunk),
}

/// Whether an arrival ends the response.
pub open spec fn is_end(arrival: Arrival) -> bool {
    match arrival {
        Arrival::End => true,
        Arrival::Chunk(chunk) => ends_response(chunk),
    }
}

/// What a stream has brought so far: what it adds up to, whether it has ended, and the
/// events that were told.
pub struct Heard {
    pub response: Response,
    pub ended: bool,
    pub events: Seq<StreamEventView>,
}

/// What an arrival adds to a response and the events that it means. The end mark means
/// the end, without a usage.
pub open spec fn arrival_step(response: Response, arrival: Arrival) -> Progress {
    match arrival {
        Arrival::End => with_done(Progress { response, events: Seq::empty() }, None),
        Arrival::Chunk(chunk) => after_chunk(response, chunk),
    }
}

/// What one more arrival makes of what a stream has brought: nothing once the stream has
/// ended, else what the arrival adds.
pub open spec fn after_arrival(heard: Heard, arrival: Arrival) -> Heard {
    if heard.ended {
        heard
    } else {
        let step = arrival_step(heard.response, arrival);
        Heard {
            response: step.response,
            ended: is_end(arrival),
            events: heard.events + step.events,
        }
    }
}

/// The decoder of one streamed response.
#[derive(Debug)]
pub struct ChatStream {
    ended: bool,
    buffer: String,
    content: String,
    reasoning: String,
    calls: Vec<PendingCall>,
}

impl ChatStream {
    /// The text that waits for the end of its line.
    pub closed spec fn pending_text(&self) -> Seq<char> {
        self.buffer@
    }

    /// What the stream has added up to so far.
    pub closed spec fn response(&self) -> Response {
        Response {
            content: self.content@,
            reasoning: self.reasoning@,
            calls: pending_view(self.calls@),
        }
    }

    /// Whether the response has ended.
    pub closed spec fn ended(&self) -> bool {
        self.ended
    }

    /// What the stream has brought so far, with no event told since.
    pub open spec fn heard(&self) -> Heard {
        Heard { response: self.response(), ended: self.ended(), events: Seq::empty() }
    }

    /// A decoder that has seen nothing yet.
    pub fn new() -> (r: Self)
        ensures
            !r.ended(),
            r.pending_text() == Seq::<char>::empty(),
            r.response() == (Response {
                content: Seq::empty(),
                reasoning: Seq::empty(),
                calls: Seq::empty(),
            }),
    {
        let r = ChatStream {
            ended: false,
            buffer: String::new(),
            content: String::new(),
            reasoning: String::new(),
            calls: Vec::new(),
        };
        assert(pending_view(r.calls@) =~= Seq::empty());
        r
    }

    /// Takes the bytes of one read and gives the data of the lines that they complete.
    /// Bytes that are no text of their own are refused.
    pub fn feed(&mut self, bytes: &[u8]) -> (r: Result<Vec<StreamLine>, String>)
        ensures
            final(self).heard() == old(self).heard(),
            r is Ok <==> valid_utf8(bytes@),
            match r {
                Ok(lines) => stream_lines_view(lines@) == complete_data(
                    old(self).pending_text() + decode_utf8(bytes@),
                ) && final(self).pending_text() == incomplete_rest(
                    old(self).pending_text() + decode_utf8(bytes@),
                ),
                Err(e) => e@ == "utf8 decode: "@ + utf8_error_text(bytes@)
                    && final(self).pending_text() == old(self).pending_text(),
            },
    {
        let text = match decode_text(bytes) {
            Ok(text) => text,
            Err(e) => {
                let mut message = "utf8 decode: ".to_string();
                message.append(e.as_str());
                return Err(message);
            },
        };
        proof {
            encode_utf8_decode_utf8(text@);
        }
        Ok(self.take_text(text))
    }

    /// Takes a text that has arrived and gives the data of the lines that it completes.
    pub fn take_text(&mut self, text: &str) -> (r: Vec<StreamLine>)
        ensures
            final(self).heard() == old(self).heard(),
            stream_lines_view(r@) == complete_data(old(self).pending_text() + text@),
            final(self).pending_text() == incomplete_rest(old(self).pending_text() + text@),
    {
        let mut whole = self.buffer.clone();
        whole.append(text);
        let cs = chars_of(whole.as_str());
        let n = cs.len();
        let mut lines: Vec<StreamLine> = Vec::new();
        let mut start: usize = 0;
        assert(cs@.skip(0) =~= cs@);
        assert(stream_lines_view(lines@) =~= Seq::empty());
        let mut at: usize = find_char(&cs, 0, n, '\n');
        assert(cs@.subrange(0, n as int) =~= cs@.skip(0));
        while at < n
            invariant
                start <= at <= n == cs@.len(),
                at - start == index_of(cs@.skip(start as int), '\n'),
                complete_data(cs@) == stream_lines_view(lines@) + complete_data(
                    cs@.skip(start as int),
                ),
                incomplete_rest(cs@) == incomplete_rest(cs@.skip(start as int)),
            decreases n - start,
        {
            let ghost rest = cs@.skip(start as int);
            let ghost before = lines@;
            assert(rest.take(at - start) =~= cs@.subrange(start as int, at as int));
            assert(rest.skip(at - start + 1) =~= cs@.skip(at + 1));
            read_line(&cs, start, at, &mut lines);
            assert(stream_lines_view(lines@) + complete_data(cs@.skip(at + 1)) =~=
                stream_lines_view(before) + complete_data(rest));
            start = at + 1;
            at = find_char(&cs, start, n, '\n');
            assert(cs@.subrange(start as int, n as int) =~= cs@.skip(start as int));
        }
        self.buffer = string_of(&cs, start, n);
        assert(self.buffer@ =~= cs@.skip(start as int));
        assert(stream_lines_view(lines@) + Seq::empty() =~= stream_lines_view(lines@));
        lines
    }

    /// The message that the stream has added up to so far.
    fn message(&self) -> (r: ResponseMessage)
        ensures
            r@ == response_message(self.response()),
    {
        let content = if self.content.as_str().unicode_len() == 0 {
            None
        } else {
            Some(self.content.clone())
        };
        let reasoning_content = if self.reasoning.as_str().unicode_len() == 0 {
            None
        } else {
            Some(self.reasoning.clone())
        };
        let tool_calls = if self.calls.len() == 0 {
            None
        } else {
            Some(finish_calls(&self.calls))
        };
        ResponseMessage { role: "assistant".to_string(), content, tool_calls, reasoning_content }
    }

    /// Takes the end mark of a stream: the event that it means, unless the response has
    /// ended before.
    pub fn finish(&mut self) -> (r: Option<StreamEvent>)
        ensures
            final(self).pending_text() == old(self).pending_text(),
            after_arrival(old(self).heard(), Arrival::End) == (Heard {
                events: match r {
                    Some(event) => seq![event@],
                    None => Seq::empty(),
                },
                ..final(self).heard()
            }),
    {
        if self.ended {
            return None;
        }
        self.ended = true;
        let event = StreamEvent::Done { message: self.message(), usage: None };
        assert(Seq::<StreamEventView>::empty() + Seq::empty().push(event@) =~= seq![event@]);
        Some(event)
    }

    /// Takes a chunk: the events that it means, in order, and whether the response has
    /// ended. Once it has ended, a chunk means nothing any more.
    pub fn accept(&mut self, chunk: &StreamChunk) -> (r: (Vec<StreamEvent>, bool))
        ensures
            final(self).pending_text() == old(self).pending_text(),
            after_arrival(old(self).heard(), Arrival::Chunk(*chunk)) == (Heard {
                events: events_view(r.0@),
                ..final(self).heard()
            }),
            r.1 == final(self).ended(),
    {
        if self.ended {
            let none: Vec<StreamEvent> = Vec::new();
            assert(events_view(none@) =~= Seq::empty());
            return (none, true);
        }
        let events = self.add_chunk(chunk);
        assert(Seq::<StreamEventView>::empty() + events_view(events@) =~= events_view(events@));
        (events, self.ended)
    }

    /// Adds a chunk to a response that has not ended: the events that it means.
    fn add_chunk(&mut self, chunk: &StreamChunk) -> (r: Vec<StreamEvent>)
        requires
            !old(self).ended(),
        ensures
            final(self).pending_text() == old(self).pending_text(),
            final(self).response() == after_chunk(old(self).response(), *chunk).response,
            final(self).ended() == ends_response(*chunk),
            events_view(r@) == after_chunk(old(self).response(), *chunk).events,
    {
        let mut events: Vec<StreamEvent> = Vec::new();
        assert(events_view(events@) =~= Seq::empty());
        if chunk.usage.is_some() {
            self.push_done(&mut events, chunk.usage);
            self.ended = true;
            return events;
        }
        if chunk.choices.len() == 0 {
            return events;
        }
        let choice = &chunk.choices[0];
        match &choice.delta.reasoning_content {
            Some(text) => {
                self.reasoning.append(text.as_str());
                push_event(&mut events, StreamEvent::ThinkingDelta(text.clone()));
            },
            None => {},
        }
        match &choice.delta.content {
            Some(text) => {
                self.content.append(text.as_str());
                push_event(&mut events, StreamEvent::ContentDelta(text.clone()));
            },
            None => {},
        }
        match &choice.delta.tool_calls {
            Some(calls) => {
                let ghost told = Progress {
                    response: self.response(),
                    events: events_view(events@),
                };
                let mut i: usize = 0;
                assert(calls@.take(0) =~= Seq::empty());
                while i < calls.len()
                    invariant
                        i <= calls@.len(),
                        !self.ended(),
                        self.pending_text() == old(self).pending_text(),
                        with_calls(told, calls@.take(i as int)) == (Progress {
                            response: self.response(),
                            events: events_view(events@),
                        }),
                    decreases calls@.len() - i,
                {
                    assert(calls@.take(i + 1).drop_last() =~= calls@.take(i as int));
                    self.accept_call(&calls[i], &mut events);
                    i = i + 1;
                }
                assert(calls@.take(i as int) =~= calls@);
            },
            None => {},
        }
        let finished = match &choice.finish_reason {
            Some(reason) => same_text(reason.as_str(), "stop") || same_text(
                reason.as_str(),
                "tool_calls",
            ),
            None => false,
        };
        if finished {
            self.push_done(&mut events, None);
            self.ended = true;
        }
        events
    }

    /// Tells the end of the response.
    fn push_done(&self, events: &mut Vec<StreamEvent>, usage: Option<Usage>)
        ensures
            events_view(final(events)@) == events_view(old(events)@).push(
                StreamEventView::Done { message: response_message(self.response()), usage },
            ),
    {
        let message = self.message();
        push_event(events, StreamEvent::Done { message, usage });
    }

    /// Takes a piece of a tool call.
    fn accept_call(&mut self, call: &StreamToolCall, events: &mut Vec<StreamEvent>)
        ensures
            final(self).ended() == old(self).ended(),
            final(self).pending_text() == old(self).pending_text(),
            (Progress { response: final(self).response(), events: events_view(final(events)@) })
                == with_call(
                Progress { response: old(self).response(), events: events_view(old(events)@) },
                *call,
            ),
    {
        let at = call.index as usize;
        while self.calls.len() <= at
            invariant
                self.ended == old(self).ended,
                self.buffer == old(self).buffer,
                self.content == old(self).content,
                self.reasoning == old(self).reasoning,
                self.calls@.len() >= old(self).calls@.len(),
                self.calls@.len() <= old(self).calls@.len() || self.calls@.len() <= at + 1,
                pending_view(self.calls@) =~= padded(
                    pending_view(old(self).calls@),
                    self.calls@.len(),
                ),
            decreases at + 1 - self.calls@.len(),
        {
            let ghost before = self.calls@;
            self.calls.push(
                PendingCall { id: String::new(), name: String::new(), arguments: String::new() },
            );
            assert(pending_view(self.calls@) =~= pending_view(before).push(
                self.calls@.last()@,
            ));
        }
        assert(pending_view(self.calls@) =~= padded(pending_view(old(self).calls@), (at + 1) as nat));
        match &call.id {
            Some(id) => {
                let ghost before = self.calls@;
                self.calls[at].id = id.clone();
                assert(pending_view(self.calls@) =~= pending_view(before).update(
                    at as int,
                    self.calls@[at as int]@,
                ));
            },
            None => {},
        }
        match &call.function {
            Some(function) => self.accept_function(at, function, events),
            None => {},
        }
    }

    /// Takes a piece of what a tool call is to run.
    fn accept_function(
        &mut self,
        at: usize,
        function: &StreamFunctionCall,
        events: &mut Vec<StreamEvent>,
    )
        requires
            at < old(self).response().calls.len(),
        ensures
            final(self).ended() == old(self).ended(),
            final(self).pending_text() == old(self).pending_text(),
            (Progress { response: final(self).response(), events: events_view(final(events)@) })
                == with_call_arguments(
                with_call_name(
                    Progress { response: old(self).response(), events: events_view(old(events)@) },
                    at as nat,
                    opt_view(function.name),
                ),
                at as nat,
                opt_view(function.arguments),
            ),
    {
        match &function.name {
            Some(name) => {
                let ghost before = self.calls@;
                self.calls[at].name = name.clone();
                assert(pending_view(self.calls@) =~= pending_view(before).update(
                    at as int,
                    self.calls@[at as int]@,
                ));
                let id = self.calls[at].id.clone();
                push_event(
                    events,
                    StreamEvent::ToolCallBegin { index: at, id, name: name.clone() },
                );
            },
            None => {},
        }
        match &function.arguments {
            Some(arguments) => {
                let ghost before = self.calls@;
                let mut all = self.calls[at].arguments.clone();
                all.append(arguments.as_str());
                self.calls[at].arguments = all;
                assert(pending_view(self.calls@) =~= pending_view(before).update(
                    at as int,
                    self.calls@[at as int]@,
                ));
                push_event(
                    events,
                    StreamEvent::ToolCallDelta { index: at, arguments: arguments.clone() },
                );
            },
            None => {},
        }
    }
}

/// Adds the data of a line, if it carries any.
fn read_line(cs: &Vec<char>, start: usize, end: usize, lines: &mut Vec<StreamLine>)
    requires
        start <= end <= cs@.len(),
    ensures
        stream_lines_view(final(lines)@) == stream_lines_view(old(lines)@) + line_data(
            cs@.subrange(start as int, end as int),
        ),
{
    proof {
        reveal_strlit("data: ");
    }
    let from = trim_start_index(cs, start, end);
    let to = trim_end_index(cs, from, end);
    let ghost text = cs@.subrange(from as int, to as int);
    let line = string_of(cs, from, to);
    let line_chars = chars_of(line.as_str());
    let mark = chars_of("data: ");
    assert(line_chars@.skip(0) =~= text);
    if matches_at(&line_chars, 0, &mark) {
        let data = string_of(&line_chars, 6, line_chars.len());
        assert(data@ =~= text.skip(6));
        if same_text(data.as_str(), "[DONE]") {
            lines.push(StreamLine::Done);
        } else {
            lines.push(StreamLine::Data(data));
        }
    }
    assert(stream_lines_view(lines@) =~= stream_lines_view(old(lines)@) + line_data(
        cs@.subrange(start as int, end as int),
    ));
}

/// Adds an event.
fn push_event(events: &mut Vec<StreamEvent>, event: StreamEvent)
    ensures
        events_view(final(events)@) == events_view(old(events)@).push(event@),
{
    events.push(event);
    assert(events_view(events@) =~= events_view(old(events)@).push(event@));
}

/// The tool calls that pending ones become.
fn finish_calls(calls: &Vec<PendingCall>) -> (r: Vec<ToolCall>)
    ensures
        calls_view(r@) == pending_view(calls@).map_values(|c: PendingCallView| finished_call(c)),
{
    let mut out: Vec<ToolCall> = Vec::new();
    let mut i: usize = 0;
    while i < calls.len()
        invariant
            i <= calls@.len(),
            calls_view(out@) =~= pending_view(calls@).take(i as int).map_values(
                |c: PendingCallView| finished_call(c),
            ),
        decreases calls@.len() - i,
    {
        let ghost before = out@;
        let call = ToolCall {
            id: calls[i].id.clone(),
            call_type: "function".to_string(),
            function: FunctionCall {
                name: calls[i].name.clone(),
                arguments: calls[i].arguments.clone(),
            },
        };
        out.push(call);
        assert(calls_view(out@) =~= calls_view(before).push(call@));
        i = i + 1;
    }
    assert(pending_view(calls@).take(i as int) =~= pending_view(calls@));
    out
}

/// What is said of a failed chat request names what it failed at and ends with the error,
/// or for a chunk that cannot be read with the chunk itself.
pub proof fn chat_faults_are_named(error: Seq<char>, data: String)
    ensures
        chat_fault_words(ChatFault::Serialize, error) == "serialize: "@ + error,
        chat_fault_words(ChatFault::Request, error) == "API request failed: "@ + error,
        chat_fault_words(ChatFault::Read, error) == "read stream: "@ + error,
        chat_fault_words(ChatFault::Chunk(data), error) == "parse chunk: "@ + error + " - "@
            + data@,
{
}

} // verus!
