//! What holds of the agent loop over several steps.

use vstd::prelude::*;
use crate::agent::{
    after_command, after_event, after_request, after_result, assistant_message, coherent,
    lemma_added, open_calls, sent_output, shown_events, SessionView, UiEventView,
    MAX_TOOL_ITERATIONS,
};
use crate::api::{MessageView, ResponseView, StreamEventView, ToolCallView, Usage};
use crate::stream::{is_end, response_message, Arrival};
use crate::stream_laws::{
    after_arrivals, content_told, responses_add_up_to_what_was_told, streams_end_once,
    the_first_end_counts, thinking_told,
};

verus! {

broadcast use vstd::seq::group_seq_axioms;

/// What tools answered, as messages: one for each call, in order.
pub open spec fn tool_messages(calls: Seq<ToolCallView>, results: Seq<Seq<char>>) -> Seq<
    MessageView,
> {
    Seq::new(
        calls.len(),
        |i: int|
            MessageView::Tool { tool_call_id: calls[i].id, content: sent_output(results[i]) },
    )
}

/// The session after the first pending calls ran with the given results.
pub open spec fn after_results(v: SessionView, results: Seq<Seq<char>>) -> SessionView
    decreases results.len(),
{
    if results.len() == 0 {
        v
    } else {
        after_result(after_results(v, results.drop_last()), results.last())
    }
}

/// The calls that are left once some have run.
proof fn lemma_results(v: SessionView, results: Seq<Seq<char>>)
    requires
        results.len() <= v.pending.len(),
    ensures
        after_results(v, results).pending == v.pending.skip(results.len() as int),
        after_results(v, results).messages == v.messages + tool_messages(
            v.pending.take(results.len() as int),
            results,
        ),
    decreases results.len(),
{
    let n = results.len() as int;
    if n == 0 {
        assert(v.pending.skip(0) =~= v.pending);
        assert(v.messages + tool_messages(v.pending.take(0), results) =~= v.messages);
    } else {
        lemma_results(v, results.drop_last());
        let before = after_results(v, results.drop_last());
        assert(before.pending[0] == v.pending[n - 1]);
        assert(v.pending.skip(n - 1).drop_first() =~= v.pending.skip(n));
        assert(after_results(v, results).messages =~= v.messages + tool_messages(
            v.pending.take(n),
            results,
        ));
    }
}

/// Every tool call of a finished response is answered exactly once, by a message with
/// the call's identifier, in the order of the calls and right behind the response.
pub proof fn every_call_is_answered_once(
    v: SessionView,
    message: ResponseView,
    usage: Option<Usage>,
    results: Seq<Seq<char>>,
)
    requires
        message.tool_calls matches Some(calls) && calls.len() == results.len(),
    ensures
        ({
            let done = after_event(v, StreamEventView::Done { message, usage });
            let end = after_results(done, results);
            &&& end.pending.len() == 0
            &&& end.messages == v.messages.push(assistant_message(message)) + tool_messages(
                message.tool_calls->0,
                results,
            )
        }),
{
    let done = after_event(v, StreamEventView::Done { message, usage });
    lemma_results(done, results);
    assert(done.pending.take(results.len() as int) =~= done.pending);
}

/// What can happen in a turn.
pub enum TurnStep {
    /// A request is sent.
    Request,
    /// An event of its response comes.
    Event(StreamEventView),
    /// The first of the pending tool calls has run.
    Result(Seq<char>),
}

/// Whether a session takes a step: the result of a call that is pending, or, where none
/// is, a request that is still allowed or the end of a response. The other events of a
/// response always come.
pub open spec fn takes(v: SessionView, step: TurnStep) -> bool {
    match step {
        TurnStep::Request => v.iterations < MAX_TOOL_ITERATIONS && v.pending.len() == 0,
        TurnStep::Event(event) => event is Done ==> v.pending.len() == 0,
        TurnStep::Result(_) => v.pending.len() > 0,
    }
}

/// The session after a step.
pub open spec fn after_step(v: SessionView, step: TurnStep) -> SessionView {
    match step {
        TurnStep::Request => after_request(v),
        TurnStep::Event(event) => after_event(v, event),
        TurnStep::Result(result) => after_result(v, result),
    }
}

/// The session after some steps.
pub open spec fn after_steps(v: SessionView, steps: Seq<TurnStep>) -> SessionView
    decreases steps.len(),
{
    if steps.len() == 0 {
        v
    } else {
        after_step(after_steps(v, steps.drop_last()), steps.last())
    }
}

/// Whether a session takes all of some steps, one after another.
pub open spec fn takes_all(v: SessionView, steps: Seq<TurnStep>) -> bool
    decreases steps.len(),
{
    steps.len() == 0 || (takes_all(v, steps.drop_last()) && takes(
        after_steps(v, steps.drop_last()),
        steps.last(),
    ))
}

/// How many of some steps are requests.
pub open spec fn requests_in(steps: Seq<TurnStep>) -> nat
    decreases steps.len(),
{
    if steps.len() == 0 {
        0
    } else {
        requests_in(steps.drop_last()) + if steps.last() is Request {
            1nat
        } else {
            0nat
        }
    }
}

/// A message of the user never leads to more requests than are allowed, whatever the
/// responses and the tools say.
pub proof fn turns_send_a_bounded_number_of_requests(
    v: SessionView,
    text: Seq<char>,
    steps: Seq<TurnStep>,
)
    requires
        takes_all(after_command(v, text), steps),
    ensures
        requests_in(steps) <= MAX_TOOL_ITERATIONS,
        after_steps(after_command(v, text), steps).iterations == requests_in(steps),
    decreases steps.len(),
{
    if steps.len() > 0 {
        turns_send_a_bounded_number_of_requests(v, text, steps.drop_last());
    }
}

/// The conversation only grows: whatever happens in a turn, the messages so far stay, in
/// their order, and the user's message follows them.
pub proof fn messages_are_never_lost(v: SessionView, text: Seq<char>, steps: Seq<TurnStep>)
    ensures
        v.messages.push(MessageView::User { content: text }).is_prefix_of(
            after_steps(after_command(v, text), steps).messages,
        ),
    decreases steps.len(),
{
    if steps.len() > 0 {
        messages_are_never_lost(v, text, steps.drop_last());
    }
}

/// Whatever a session takes, its state stays coherent: the calls that it holds pending are
/// those that its conversation leaves open.
pub proof fn sessions_stay_coherent(v: SessionView, text: Seq<char>, steps: Seq<TurnStep>)
    requires
        coherent(v),
        v.pending.len() == 0,
        takes_all(after_command(v, text), steps),
    ensures
        coherent(after_steps(after_command(v, text), steps)),
    decreases steps.len(),
{
    if steps.len() == 0 {
        lemma_added(v.messages, MessageView::User { content: text });
    } else {
        sessions_stay_coherent(v, text, steps.drop_last());
        let w = after_steps(after_command(v, text), steps.drop_last());
        match steps.last() {
            TurnStep::Event(StreamEventView::Done { message, .. }) => {
                lemma_added(w.messages, assistant_message(message));
            },
            TurnStep::Result(result) => {
                lemma_added(
                    w.messages,
                    MessageView::Tool {
                        tool_call_id: w.pending[0].id,
                        content: sent_output(result),
                    },
                );
            },
            _ => {},
        }
    }
}

/// How many messages stand behind the one at an index.
pub open spec fn behind(messages: Seq<MessageView>, at: int) -> int {
    messages.len() - at - 1
}

/// Whether the message at an index is an answer with these tool calls.
pub open spec fn asks(messages: Seq<MessageView>, at: int, calls: Seq<ToolCallView>) -> bool {
    &&& 0 <= at < messages.len()
    &&& messages[at] matches MessageView::Assistant { tool_calls, .. } && tool_calls == Some(calls)
}

/// Whether the message at an index answers a tool call.
pub open spec fn answers(messages: Seq<MessageView>, at: int, call: ToolCallView) -> bool {
    &&& 0 <= at < messages.len()
    &&& messages[at] matches MessageView::Tool { tool_call_id, .. } && tool_call_id == call.id
}

/// What an answer with tool calls is followed by in a conversation that is in order.
proof fn lemma_answers(messages: Seq<MessageView>, at: int, calls: Seq<ToolCallView>)
    requires
        open_calls(messages) is Some,
        asks(messages, at, calls),
    ensures
        forall|k: int|
            0 <= k < calls.len() && k < behind(messages, at) ==> #[trigger] answers(
                messages,
                at + 1 + k,
                calls[k],
            ),
        behind(messages, at) <= calls.len() ==> open_calls(messages) == Some(
            calls.skip(behind(messages, at)),
        ),
    decreases messages.len(),
{
    if at == messages.len() - 1 {
        assert(calls.skip(0) =~= calls);
    } else {
        let fewer = messages.drop_last();
        let last = messages.len() - 1;
        assert(asks(fewer, at, calls));
        lemma_answers(fewer, at, calls);
        let m = behind(fewer, at);
        if m < calls.len() {
            let open = calls.skip(m);
            assert(open[0] == calls[m]);
            assert(answers(messages, last, calls[m]));
            assert(open.drop_first() =~= calls.skip(m + 1));
        }
        assert forall|k: int| 0 <= k < calls.len() && k < behind(messages, at) implies
            #[trigger] answers(messages, at + 1 + k, calls[k]) by {
            if k < m {
                assert(answers(fewer, at + 1 + k, calls[k]));
            }
        }
    }
}

/// Every tool call is answered in its place: in a coherent session each answer with tool
/// calls is followed directly by a message for each call, with the call's identifier and
/// in the order of the calls. Only where the conversation stops among them are calls left,
/// and these are the pending ones.
pub proof fn calls_are_answered_in_place(v: SessionView, at: int, calls: Seq<ToolCallView>)
    requires
        coherent(v),
        asks(v.messages, at, calls),
    ensures
        forall|k: int|
            0 <= k < calls.len() && k < behind(v.messages, at) ==> #[trigger] answers(
                v.messages,
                at + 1 + k,
                calls[k],
            ),
        behind(v.messages, at) <= calls.len() ==> v.pending == calls.skip(behind(v.messages, at)),
        v.pending.len() == 0 ==> behind(v.messages, at) >= calls.len(),
{
    lemma_answers(v.messages, at, calls);
}

/// After whatever a turn takes, every tool call of every answer is answered in its place,
/// but for the pending ones.
pub proof fn turns_answer_every_call(
    v: SessionView,
    text: Seq<char>,
    steps: Seq<TurnStep>,
    at: int,
    calls: Seq<ToolCallView>,
)
    requires
        coherent(v),
        v.pending.len() == 0,
        takes_all(after_command(v, text), steps),
        asks(after_steps(after_command(v, text), steps).messages, at, calls),
    ensures
        ({
            let end = after_steps(after_command(v, text), steps);
            let behind = behind(end.messages, at);
            &&& forall|k: int|
                0 <= k < calls.len() && k < behind ==> #[trigger] answers(
                    end.messages,
                    at + 1 + k,
                    calls[k],
                )
            &&& behind <= calls.len() ==> end.pending == calls.skip(behind)
            &&& end.pending.len() == 0 ==> behind >= calls.len()
        }),
{
    sessions_stay_coherent(v, text, steps);
    calls_are_answered_in_place(after_steps(after_command(v, text), steps), at, calls);
}

/// The beginning of a conversation in order is in order.
proof fn lemma_beginning(messages: Seq<MessageView>, n: int)
    requires
        open_calls(messages) is Some,
        0 <= n <= messages.len(),
    ensures
        open_calls(messages.take(n)) is Some,
    decreases messages.len(),
{
    if n == messages.len() {
        assert(messages.take(n) =~= messages);
    } else {
        lemma_beginning(messages.drop_last(), n);
        assert(messages.drop_last().take(n) =~= messages.take(n));
    }
}

/// Calls that are open were asked for by an answer, of which only tools' answers follow.
proof fn lemma_asked(messages: Seq<MessageView>) -> (r: (int, Seq<ToolCallView>))
    requires
        open_calls(messages) matches Some(open) && open.len() > 0,
    ensures
        asks(messages, r.0, r.1),
        behind(messages, r.0) < r.1.len(),
        open_calls(messages) == Some(r.1.skip(behind(messages, r.0))),
    decreases messages.len(),
{
    let fewer = messages.drop_last();
    match messages.last() {
        MessageView::Assistant { tool_calls, .. } => {
            let calls = tool_calls->0;
            assert(calls.skip(0) =~= calls);
            (messages.len() - 1, calls)
        },
        MessageView::Tool { .. } => {
            let (at, calls) = lemma_asked(fewer);
            let m = behind(fewer, at);
            assert(calls.skip(m).drop_first() =~= calls.skip(m + 1));
            (at, calls)
        },
        _ => {
            (0, Seq::empty())
        },
    }
}

/// Tools answer nothing but what was asked: in a coherent session each tool's message
/// stands behind an answer with tool calls, in the place of the call that it answers.
pub proof fn tools_answer_only_what_was_asked(v: SessionView, at: int)
    requires
        coherent(v),
        0 <= at < v.messages.len(),
        v.messages[at] is Tool,
    ensures
        exists|asked: int, calls: Seq<ToolCallView>|
            #![trigger asks(v.messages, asked, calls)]
            asks(v.messages, asked, calls) && asked < at <= asked + calls.len() && answers(
                v.messages,
                at,
                calls[at - asked - 1],
            ),
{
    let part = v.messages.take(at + 1);
    lemma_beginning(v.messages, at + 1);
    assert(part.drop_last() =~= v.messages.take(at));
    let (asked, calls) = lemma_asked(v.messages.take(at));
    assert(asks(v.messages, asked, calls));
    let m = behind(v.messages.take(at), asked);
    assert(calls.skip(m)[0] == calls[m]);
    assert(part.last() == v.messages[at]);
    assert(answers(v.messages, at, calls[at - asked - 1]));
}

/// No answer is empty-handed: in a coherent session each has content or tool calls.
pub proof fn answers_say_something(v: SessionView, at: int)
    requires
        coherent(v),
        0 <= at < v.messages.len(),
    ensures
        v.messages[at] matches MessageView::Assistant { content, tool_calls } ==> content is Some
            || tool_calls is Some,
{
    let part = v.messages.take(at + 1);
    lemma_beginning(v.messages, at + 1);
    assert(part.last() == v.messages[at]);
}

/// The session after some events of a response.
pub open spec fn after_events(v: SessionView, events: Seq<StreamEventView>) -> SessionView
    decreases events.len(),
{
    if events.len() == 0 {
        v
    } else {
        after_event(after_events(v, events.drop_last()), events.last())
    }
}

/// What is shown of some events of a response.
pub open spec fn all_shown(
    v: SessionView,
    events: Seq<StreamEventView>,
    elapsed_secs: Seq<char>,
    tok_per_sec: Seq<char>,
) -> Seq<UiEventView>
    decreases events.len(),
{
    if events.len() == 0 {
        Seq::empty()
    } else {
        all_shown(v, events.drop_last(), elapsed_secs, tok_per_sec) + shown_events(
            after_events(v, events.drop_last()),
            events.last(),
            elapsed_secs,
            tok_per_sec,
        )
    }
}

/// The text that interface events show.
pub open spec fn text_shown(events: Seq<UiEventView>) -> Seq<char>
    decreases events.len(),
{
    if events.len() == 0 {
        Seq::empty()
    } else {
        match events.last() {
            UiEventView::TextDelta(text) => text_shown(events.drop_last()) + text,
            _ => text_shown(events.drop_last()),
        }
    }
}

/// The thinking that interface events show.
pub open spec fn thinking_shown(events: Seq<UiEventView>) -> Seq<char>
    decreases events.len(),
{
    if events.len() == 0 {
        Seq::empty()
    } else {
        match events.last() {
            UiEventView::ThinkingDelta(text) => thinking_shown(events.drop_last()) + text,
            _ => thinking_shown(events.drop_last()),
        }
    }
}

/// How often interface events start a text.
pub open spec fn text_starts(events: Seq<UiEventView>) -> nat
    decreases events.len(),
{
    if events.len() == 0 {
        0
    } else {
        text_starts(events.drop_last()) + if events.last() is TextStart {
            1nat
        } else {
            0nat
        }
    }
}

/// How often interface events start some thinking.
pub open spec fn thinking_starts(events: Seq<UiEventView>) -> nat
    decreases events.len(),
{
    if events.len() == 0 {
        0
    } else {
        thinking_starts(events.drop_last()) + if events.last() is ThinkingStart {
            1nat
        } else {
            0nat
        }
    }
}

/// Interface events shown one after another show what they show in turn.
proof fn lemma_shown_concat(a: Seq<UiEventView>, b: Seq<UiEventView>)
    ensures
        text_shown(a + b) == text_shown(a) + text_shown(b),
        thinking_shown(a + b) == thinking_shown(a) + thinking_shown(b),
        text_starts(a + b) == text_starts(a) + text_starts(b),
        thinking_starts(a + b) == thinking_starts(a) + thinking_starts(b),
    decreases b.len(),
{
    if b.len() == 0 {
        assert(a + b =~= a);
        assert(text_shown(a) + text_shown(b) =~= text_shown(a));
        assert(thinking_shown(a) + thinking_shown(b) =~= thinking_shown(a));
    } else {
        assert((a + b).drop_last() =~= a + b.drop_last());
        lemma_shown_concat(a, b.drop_last());
        assert(text_shown(a + b) =~= text_shown(a) + text_shown(b));
        assert(thinking_shown(a + b) =~= thinking_shown(a) + thinking_shown(b));
    }
}

/// What one event of a response shows.
proof fn lemma_one_shown(
    v: SessionView,
    event: StreamEventView,
    elapsed_secs: Seq<char>,
    tok_per_sec: Seq<char>,
)
    ensures
        ({
            let shown = shown_events(v, event, elapsed_secs, tok_per_sec);
            &&& text_shown(shown) == match event {
                StreamEventView::ContentDelta(text) => text,
                _ => Seq::empty(),
            }
            &&& thinking_shown(shown) == match event {
                StreamEventView::ThinkingDelta(text) => text,
                _ => Seq::empty(),
            }
            &&& text_starts(shown) == if event is ContentDelta && !v.text_started {
                1nat
            } else {
                0nat
            }
            &&& thinking_starts(shown) == if event is ThinkingDelta && !v.thinking_started {
                1nat
            } else {
                0nat
            }
        }),
{
    reveal_with_fuel(text_shown, 3);
    reveal_with_fuel(thinking_shown, 3);
    reveal_with_fuel(text_starts, 3);
    reveal_with_fuel(thinking_starts, 3);
    let shown = shown_events(v, event, elapsed_secs, tok_per_sec);
    if shown.len() == 1 {
        assert(shown.drop_last() =~= Seq::empty());
    } else if shown.len() == 2 {
        assert(shown.drop_last() =~= seq![shown[0]]);
        assert(shown.drop_last().drop_last() =~= Seq::empty());
    }
    match event {
        StreamEventView::ContentDelta(text) => {
            assert(Seq::<char>::empty() + text =~= text);
        },
        StreamEventView::ThinkingDelta(text) => {
            assert(Seq::<char>::empty() + text =~= text);
        },
        _ => {},
    }
}

/// Everything that a response tells is shown: the text and the thinking, piece by piece,
/// each started once before its first piece.
pub proof fn what_is_told_is_shown(
    v: SessionView,
    events: Seq<StreamEventView>,
    elapsed_secs: Seq<char>,
    tok_per_sec: Seq<char>,
)
    requires
        !v.text_started,
        !v.thinking_started,
    ensures
        ({
            let shown = all_shown(v, events, elapsed_secs, tok_per_sec);
            &&& text_shown(shown) == content_told(events)
            &&& thinking_shown(shown) == thinking_told(events)
            &&& text_starts(shown) == if after_events(v, events).text_started {
                1nat
            } else {
                0nat
            }
            &&& thinking_starts(shown) == if after_events(v, events).thinking_started {
                1nat
            } else {
                0nat
            }
        }),
    decreases events.len(),
{
    if events.len() > 0 {
        let before = events.drop_last();
        let w = after_events(v, before);
        what_is_told_is_shown(v, before, elapsed_secs, tok_per_sec);
        lemma_one_shown(w, events.last(), elapsed_secs, tok_per_sec);
        let shown = all_shown(v, before, elapsed_secs, tok_per_sec);
        let more = shown_events(w, events.last(), elapsed_secs, tok_per_sec);
        lemma_shown_concat(shown, more);
        assert(content_told(events) =~= text_shown(shown + more));
        assert(thinking_told(events) =~= thinking_shown(shown + more));
    }
}

/// Events before the end of a response leave the conversation as it is.
proof fn lemma_before_the_end(v: SessionView, events: Seq<StreamEventView>)
    requires
        forall|i: int| 0 <= i < events.len() ==> !(#[trigger] events[i] is Done),
    ensures
        after_events(v, events).messages == v.messages,
        after_events(v, events).pending == v.pending,
    decreases events.len(),
{
    if events.len() > 0 {
        assert(!(events[events.len() - 1] is Done));
        assert forall|i: int| 0 <= i < events.drop_last().len() implies !(
        #[trigger] events.drop_last()[i] is Done) by {
            assert(events.drop_last()[i] == events[i]);
        }
        lemma_before_the_end(v, events.drop_last());
    }
}

/// Events as steps of a turn.
pub open spec fn as_steps(events: Seq<StreamEventView>) -> Seq<TurnStep> {
    events.map_values(|event: StreamEventView| TurnStep::Event(event))
}

/// Events as steps lead where they lead as events.
proof fn lemma_as_steps(v: SessionView, events: Seq<StreamEventView>)
    ensures
        after_steps(v, as_steps(events)) == after_events(v, events),
    decreases events.len(),
{
    if events.len() > 0 {
        lemma_as_steps(v, events.drop_last());
        assert(as_steps(events).drop_last() =~= as_steps(events.drop_last()));
    }
}

/// A session with no call pending takes a whole response, however it ends.
pub proof fn responses_are_taken_whole(v: SessionView, arrivals: Seq<Arrival>)
    requires
        v.pending.len() == 0,
    ensures
        takes_all(v, as_steps(after_arrivals(arrivals).events)),
{
    let events = after_arrivals(arrivals).events;
    streams_end_once(arrivals);
    lemma_taken(v, events);
}

proof fn lemma_taken(v: SessionView, events: Seq<StreamEventView>)
    requires
        v.pending.len() == 0,
        forall|i: int| 0 <= i < events.len() - 1 ==> !(#[trigger] events[i] is Done),
    ensures
        takes_all(v, as_steps(events)),
    decreases events.len(),
{
    if events.len() > 0 {
        let fewer = events.drop_last();
        assert forall|i: int| 0 <= i < fewer.len() implies !(#[trigger] fewer[i] is Done) by {
            assert(fewer[i] == events[i]);
        }
        lemma_taken(v, fewer);
        lemma_before_the_end(v, fewer);
        lemma_as_steps(v, fewer);
        assert(as_steps(events).drop_last() =~= as_steps(fewer));
    }
}

/// An answer is kept as it was shown: once its end has come, the conversation holds one
/// more message, made of all that was told, and its text is the text that was shown.
pub proof fn answers_are_kept_as_shown(
    v: SessionView,
    arrivals: Seq<Arrival>,
    elapsed_secs: Seq<char>,
    tok_per_sec: Seq<char>,
)
    requires
        !v.text_started,
        !v.thinking_started,
        after_arrivals(arrivals).ended,
    ensures
        ({
            let heard = after_arrivals(arrivals);
            let end = after_events(v, heard.events);
            &&& end.messages == v.messages.push(
                assistant_message(response_message(heard.response)),
            )
            &&& heard.response.content == text_shown(
                all_shown(v, heard.events, elapsed_secs, tok_per_sec),
            )
            &&& heard.response.reasoning == thinking_shown(
                all_shown(v, heard.events, elapsed_secs, tok_per_sec),
            )
        }),
{
    let heard = after_arrivals(arrivals);
    what_is_told_is_shown(v, heard.events, elapsed_secs, tok_per_sec);
    responses_add_up_to_what_was_told(arrivals);
    assert(heard.response.content =~= content_told(heard.events));
    assert(heard.response.reasoning =~= thinking_told(heard.events));
    streams_end_once(arrivals);
    let at = lemma_first_end(arrivals);
    the_first_end_counts(arrivals, at);
    let told = heard.events.drop_last();
    assert forall|i: int| 0 <= i < told.len() implies !(#[trigger] told[i] is Done) by {
        assert(told[i] == heard.events[i]);
    }
    lemma_before_the_end(v, told);
}

/// The first end among arrivals that hold one.
proof fn lemma_first_end(arrivals: Seq<Arrival>) -> (r: int)
    requires
        exists|i: int| 0 <= i < arrivals.len() && is_end(#[trigger] arrivals[i]),
    ensures
        0 <= r < arrivals.len(),
        is_end(arrivals[r]),
        forall|i: int| 0 <= i < r ==> !is_end(#[trigger] arrivals[i]),
    decreases arrivals.len(),
{
    let fewer = arrivals.drop_last();
    if exists|i: int| 0 <= i < fewer.len() && is_end(#[trigger] fewer[i]) {
        let r = lemma_first_end(fewer);
        assert forall|i: int| 0 <= i < r implies !is_end(#[trigger] arrivals[i]) by {
            assert(!is_end(fewer[i]));
        }
        r
    } else {
        assert forall|i: int| 0 <= i < fewer.len() implies !is_end(#[trigger] arrivals[i]) by {
            assert(!is_end(fewer[i]));
        }
        arrivals.len() - 1
    }
}

} // verus!
