//! What holds of the steps of a session and of what is shown and sent.

use vstd::prelude::*;
use vstd::utf8::encode_utf8;
use crate::agent::{
    after_command, after_event, after_request, after_result, args_summary, assistant_message,
    command_summary, path_summary, plugins_told, prompt_of, request_matches, sent_output,
    shown_events, turn_end, shown_output, SessionView, UiEventView, MAX_TOOL_ITERATIONS,
    SYSTEM_PROMPT,
};
use crate::agent_laws::after_events;
use crate::api::{messages_view, opt_view, tools_view, ChatRequest, MessageView, StreamEventView};
use crate::json::{text_field, value_text};
use crate::number::decimal;
use crate::text::{has_prefix, without_cr};
use crate::text_laws::{free_of, lines_are_read_one_by_one, replacing_works_from_the_left};

verus! {

broadcast use vstd::seq::group_seq_axioms;

/// The beginning of a text that is at most so long, whole where it is no longer.
pub open spec fn is_beginning(part: Seq<char>, text: Seq<char>, most: nat) -> bool {
    &&& part.is_prefix_of(text)
    &&& part.len() <= most
    &&& part == text || part.len() == most
}

/// An output of up to 500 bytes is shown as it is. Of a longer one the first 500
/// characters are shown, and then how many bytes it has.
pub proof fn outputs_are_shown_up_to_a_length(output: Seq<char>) -> (part: Seq<char>)
    requires
        encode_utf8(output).len() <= usize::MAX,
    ensures
        encode_utf8(output).len() <= 500 ==> shown_output(output) == output,
        encode_utf8(output).len() > 500 ==> is_beginning(part, output, 500) && shown_output(output)
            == part + "...\n[truncated, "@ + decimal(encode_utf8(output).len())
            + " chars total]"@,
{
    if output.len() <= 500 {
        assert(output.take(output.len() as int) =~= output);
        output
    } else {
        let part = output.take(500);
        assert(part.is_prefix_of(output));
        part
    }
}

/// An output of up to 50000 bytes is sent as it is. Of a longer one the first 50000
/// characters are sent, and then how many bytes it has.
pub proof fn outputs_are_sent_up_to_a_length(output: Seq<char>) -> (part: Seq<char>)
    requires
        encode_utf8(output).len() <= usize::MAX,
    ensures
        encode_utf8(output).len() <= 50_000 ==> sent_output(output) == output,
        encode_utf8(output).len() > 50_000 ==> is_beginning(part, output, 50_000) && sent_output(
            output,
        ) == part + "\n\n[output truncated, "@ + decimal(encode_utf8(output).len())
            + " total characters]"@,
{
    if output.len() <= 50_000 {
        assert(output.take(output.len() as int) =~= output);
        output
    } else {
        let part = output.take(50_000);
        assert(part.is_prefix_of(output));
        part
    }
}

/// A prompt is the configured one, whole, or the usual one, with the working directory
/// behind it.
pub proof fn prompts_name_the_working_directory(prompt: Seq<char>, cwd: Seq<char>)
    ensures
        prompt_of(Some(prompt), cwd) == prompt + "\n\nCurrent working directory: "@ + cwd,
        prompt_of(None, cwd) == prompt_of(Some(SYSTEM_PROMPT@), cwd),
{
}

/// A command is summed up by its first line, whole, and where there is none by a question
/// mark.
pub proof fn commands_are_summed_up_by_their_first_line(line: Seq<char>, rest: Seq<char>)
    requires
        free_of(line, '\n'),
    ensures
        command_summary(Some(line + seq!['\n'] + rest)) == without_cr(line),
        line.len() > 0 ==> command_summary(Some(line)) == line,
        command_summary(Some(Seq::empty())) == "?"@,
        command_summary(None) == "?"@,
{
    reveal_strlit("?");
    lines_are_read_one_by_one(line, rest);
    lines_are_read_one_by_one("?"@, rest);
}

/// A path in the working directory is shown from there, with a dot for the directory, and
/// a path in which the directory does not stand is shown as it is.
pub proof fn paths_are_shown_from_the_working_directory(
    cwd: Seq<char>,
    rest: Seq<char>,
    other: Seq<char>,
)
    requires
        cwd.len() > 0,
        forall|i: int| 0 <= i <= rest.len() ==> !has_prefix(#[trigger] rest.skip(i), cwd),
        forall|i: int| 0 <= i <= other.len() ==> !has_prefix(#[trigger] other.skip(i), cwd),
    ensures
        path_summary(Some(cwd + rest), cwd) == "."@ + rest,
        path_summary(Some(other), cwd) == other,
        path_summary(None, cwd) == path_summary(Some("?"@), cwd),
{
    replacing_works_from_the_left(rest, cwd, "."@);
    replacing_works_from_the_left(other, cwd, "."@);
}

/// A call is summed up by what its tool works on: a command, or the path of a file. That
/// of any other tool is shown with all its arguments.
pub proof fn calls_are_summed_up_by_what_they_work_on(
    name: Seq<char>,
    args: serde_json::Value,
    cwd: Seq<char>,
)
    ensures
        name == "bash"@ ==> args_summary(name, args, cwd) == command_summary(
            text_field(args, "command"@),
        ),
        name == "read"@ || name == "write"@ || name == "edit"@ ==> args_summary(name, args, cwd)
            == path_summary(text_field(args, "file_path"@), cwd),
        name != "bash"@ && name != "read"@ && name != "write"@ && name != "edit"@ ==> args_summary(
            name,
            args,
            cwd,
        ) == value_text(args),
{
    reveal_strlit("bash");
    reveal_strlit("read");
    reveal_strlit("write");
    reveal_strlit("edit");
    assert("bash"@[0] == 'b' && "read"@[0] == 'r' && "write"@[0] == 'w' && "edit"@[0] == 'e');
}

/// Whether two states of a session are of one conversation: the model, the provider and
/// the tools are the same.
pub open spec fn same_setting(a: SessionView, b: SessionView) -> bool {
    a.model == b.model && a.provider == b.provider && a.tools == b.tools
}

/// A message of the user is added as it was written, and a turn of 50 requests starts.
pub proof fn turns_start_with_the_message(v: SessionView, text: Seq<char>)
    ensures
        same_setting(v, after_command(v, text)),
        after_command(v, text).messages == v.messages + seq![MessageView::User { content: text }],
        after_command(v, text).pending == v.pending,
        after_command(v, text).iterations == 0,
        MAX_TOOL_ITERATIONS == 50,
{
    assert(after_command(v, text).messages =~= v.messages + seq![
        MessageView::User { content: text },
    ]);
}

/// A request changes nothing of the conversation. It counts, and nothing of its response
/// has been shown or begun.
pub proof fn requests_start_a_response(v: SessionView)
    ensures
        same_setting(v, after_request(v)),
        after_request(v).messages == v.messages,
        after_request(v).pending == v.pending,
        after_request(v).iterations == v.iterations + 1,
        !after_request(v).has_tool_calls,
        !after_request(v).text_started,
        !after_request(v).thinking_started,
{
}

/// Only the end of a response changes the conversation. Its message is added with the
/// content and the tool calls that it has, with an empty content where it has neither,
/// and its calls, in order, are what has to run.
pub proof fn only_ends_change_the_conversation(v: SessionView, event: StreamEventView)
    ensures
        same_setting(v, after_event(v, event)),
        after_event(v, event).iterations == v.iterations,
        !(event is Done) ==> after_event(v, event).messages == v.messages && after_event(
            v,
            event,
        ).pending == v.pending,
        event matches StreamEventView::Done { message, usage } ==> {
            let after = after_event(v, event);
            let content = if message.content is None && message.tool_calls is None {
                Some(Seq::empty())
            } else {
                message.content
            };
            &&& after.messages == v.messages + seq![
                MessageView::Assistant { content, tool_calls: message.tool_calls },
            ]
            &&& message.tool_calls matches Some(calls) ==> after.pending == calls
            &&& message.tool_calls is None ==> after.pending.len() == 0
        },
{
    if let StreamEventView::Done { message, usage } = event {
        assert(after_event(v, event).messages =~= v.messages + seq![assistant_message(message)]);
    }
}

/// A turn goes on exactly where the response has begun a tool call.
pub proof fn calls_keep_the_turn_going(v: SessionView, events: Seq<StreamEventView>)
    requires
        !v.has_tool_calls,
        !v.text_started,
        !v.thinking_started,
    ensures
        after_events(v, events).has_tool_calls <==> exists|i: int|
            0 <= i < events.len() && #[trigger] events[i] is ToolCallBegin,
        after_events(v, events).text_started <==> exists|i: int|
            0 <= i < events.len() && #[trigger] events[i] is ContentDelta,
        after_events(v, events).thinking_started <==> exists|i: int|
            0 <= i < events.len() && #[trigger] events[i] is ThinkingDelta,
    decreases events.len(),
{
    if events.len() > 0 {
        let fewer = events.drop_last();
        let last = events[events.len() - 1];
        calls_keep_the_turn_going(v, fewer);
        let before = after_events(v, fewer);
        if before.has_tool_calls {
            let i = choose|i: int| 0 <= i < fewer.len() && #[trigger] fewer[i] is ToolCallBegin;
            assert(events[i] is ToolCallBegin);
        }
        if before.text_started {
            let i = choose|i: int| 0 <= i < fewer.len() && #[trigger] fewer[i] is ContentDelta;
            assert(events[i] is ContentDelta);
        }
        if before.thinking_started {
            let i = choose|i: int| 0 <= i < fewer.len() && #[trigger] fewer[i] is ThinkingDelta;
            assert(events[i] is ThinkingDelta);
        }
        if exists|i: int| 0 <= i < events.len() && #[trigger] events[i] is ToolCallBegin {
            let i = choose|i: int| 0 <= i < events.len() && #[trigger] events[i] is ToolCallBegin;
            assert(i < fewer.len() ==> fewer[i] is ToolCallBegin);
        }
        if exists|i: int| 0 <= i < events.len() && #[trigger] events[i] is ContentDelta {
            let i = choose|i: int| 0 <= i < events.len() && #[trigger] events[i] is ContentDelta;
            assert(i < fewer.len() ==> fewer[i] is ContentDelta);
        }
        if exists|i: int| 0 <= i < events.len() && #[trigger] events[i] is ThinkingDelta {
            let i = choose|i: int| 0 <= i < events.len() && #[trigger] events[i] is ThinkingDelta;
            assert(i < fewer.len() ==> fewer[i] is ThinkingDelta);
        }
    }
}

/// Each event is shown at once: a piece of text or of thinking as it is, with a start in
/// front of the first one, the usage at the end as it was reported, and tool calls not at
/// all before they run.
pub proof fn events_are_shown_at_once(
    v: SessionView,
    event: StreamEventView,
    secs: Seq<char>,
    speed: Seq<char>,
)
    ensures
        ({
            let shown = shown_events(v, event, secs, speed);
            &&& event matches StreamEventView::ContentDelta(text) ==> shown.last()
                == UiEventView::TextDelta(text) && (if v.text_started {
                shown.len() == 1
            } else {
                shown.len() == 2 && shown[0] is TextStart
            })
            &&& event matches StreamEventView::ThinkingDelta(text) ==> shown.last()
                == UiEventView::ThinkingDelta(text) && (if v.thinking_started {
                shown.len() == 1
            } else {
                shown.len() == 2 && shown[0] is ThinkingStart
            })
            &&& event is ToolCallBegin || event is ToolCallDelta ==> shown.len() == 0
            &&& event matches StreamEventView::Done { usage, .. } ==> match usage {
                Some(usage) => {
                    &&& shown.len() == 2
                    &&& shown[0] == (UiEventView::TokenUsage {
                        context: usage.prompt_tokens,
                        output: usage.completion_tokens,
                    })
                    &&& shown[1] == (UiEventView::ResponseMeta {
                        tokens: usage.completion_tokens,
                        elapsed_secs: secs,
                        tok_per_sec: speed,
                    })
                },
                None => shown.len() == 0,
            }
        }),
{
}

/// A result answers the first call that has to run, under its identifier, and the calls
/// behind it still have to run.
pub proof fn results_answer_the_first_call(v: SessionView, result: Seq<char>)
    requires
        v.pending.len() > 0,
    ensures
        same_setting(v, after_result(v, result)),
        after_result(v, result).iterations == v.iterations,
        after_result(v, result).has_tool_calls == v.has_tool_calls,
        after_result(v, result).messages == v.messages + seq![
            MessageView::Tool { tool_call_id: v.pending[0].id, content: sent_output(result) },
        ],
        seq![v.pending[0]] + after_result(v, result).pending == v.pending,
{
    assert(after_result(v, result).messages =~= v.messages + seq![
        MessageView::Tool { tool_call_id: v.pending[0].id, content: sent_output(result) },
    ]);
    assert(seq![v.pending[0]] + v.pending.drop_first() =~= v.pending);
}

/// A request carries the whole conversation, message by message, the model, the provider
/// and every tool, and asks for a stream with its usage.
pub proof fn requests_carry_the_whole_session(v: SessionView, request: ChatRequest)
    requires
        request_matches(v, request),
    ensures
        request.model@ == v.model,
        request.messages@.len() == v.messages.len(),
        forall|i: int|
            0 <= i < v.messages.len() ==> (#[trigger] request.messages@[i])@ == v.messages[i],
        request.tools is Some,
        request.tools->0@.len() == v.tools.len(),
        forall|i: int|
            0 <= i < v.tools.len() ==> (#[trigger] request.tools->0@[i])@ == v.tools[i],
        opt_view(request.provider) == v.provider,
        request.stream,
        request.stream_options is Some,
        request.stream_options->0.include_usage,
{
    assert forall|i: int| 0 <= i < v.messages.len() implies (#[trigger] request.messages@[i])@
        == v.messages[i] by {
        assert(messages_view(request.messages@)[i] == v.messages[i]);
    }
    assert forall|i: int| 0 <= i < v.tools.len() implies (#[trigger] request.tools->0@[i])@
        == v.tools[i] by {
        assert(tools_view(request.tools->0@)[i] == v.tools[i]);
    }
}

/// The end of a turn is always told, last and once, and an error before it as it is.
pub proof fn the_end_of_a_turn_is_told(error: Seq<char>, outcome: Result<(), Seq<char>>)
    ensures
        turn_end(outcome).len() > 0,
        forall|i: int|
            0 <= i < turn_end(outcome).len() ==> (#[trigger] turn_end(outcome)[i] is Done <==> i
                == turn_end(outcome).len() - 1),
        turn_end(Ok(())).len() == 1,
        turn_end(Err(error)).len() == 2 && turn_end(Err(error))[0] == UiEventView::Error(error),
{
}

/// Plugins are told of where there are any, and so is what went wrong with them.
pub proof fn plugins_are_told_of(count: usize, error: Seq<char>)
    ensures
        count > 0 ==> plugins_told(Ok(count)) == Some(
            UiEventView::PluginsLoaded { count: count as nat },
        ),
        count == 0 ==> plugins_told(Ok(count)) is None,
        plugins_told(Err(error)) == Some(UiEventView::Error("[plugins] "@ + error)),
{
}

} // verus!
