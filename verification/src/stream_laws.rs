//! What holds between a stream's events and the message that it ends with.

use vstd::prelude::*;
use vstd::utf8::{
    decode_utf8, decode_utf8_encode_utf8, encode_utf8, encode_utf8_decode_utf8, valid_utf8,
    valid_utf8_concat,
};
use crate::api::{opt_view, StreamChunk, StreamEventView, StreamToolCall, Usage};
use crate::stream::{
    after_arrival, after_chunk, arrival_step, complete_data, ends_response, incomplete_rest, is_end,
    line_data, nonempty, padded, reads_can_be_cut_anywhere, response_message, with_call,
    with_call_arguments, with_call_id, with_call_name, with_calls, with_content, with_delta,
    with_done, with_reasoning, Arrival, Heard, PendingCallView, Progress, Response, StreamLineView,
};
use crate::text::{has_prefix, index_of, is_white_space, lemma_index_of_is, trimmed};
use crate::text_laws::{
    free_of, is_blank, surrounding_white_space_goes, trimming_takes_white_space_only,
};

verus! {

broadcast use vstd::seq::group_seq_axioms;

/// Texts one after another are encoded one after another.
proof fn lemma_encode_concat(x: Seq<char>, y: Seq<char>)
    ensures
        encode_utf8(x + y) == encode_utf8(x) + encode_utf8(y),
    decreases x.len(),
{
    if x.len() == 0 {
        assert(x + y =~= y);
        assert(encode_utf8(x) + encode_utf8(y) =~= encode_utf8(y));
    } else {
        lemma_encode_concat(x.drop_first(), y);
        assert((x + y).drop_first() =~= x.drop_first() + y);
        assert(encode_utf8(x + y) =~= encode_utf8(x) + encode_utf8(y));
    }
}

/// Two reads of a stream, each of whole characters, give the same data and leave the same
/// text waiting as one read of all their bytes.
pub proof fn two_reads_are_as_one(pending: Seq<char>, a: Seq<u8>, b: Seq<u8>)
    requires
        valid_utf8(a),
        valid_utf8(b),
    ensures
        valid_utf8(a + b),
        complete_data(pending + decode_utf8(a + b)) == complete_data(pending + decode_utf8(a))
            + complete_data(incomplete_rest(pending + decode_utf8(a)) + decode_utf8(b)),
        incomplete_rest(pending + decode_utf8(a + b)) == incomplete_rest(
            incomplete_rest(pending + decode_utf8(a)) + decode_utf8(b),
        ),
{
    let x = decode_utf8(a);
    let y = decode_utf8(b);
    valid_utf8_concat(a, b);
    decode_utf8_encode_utf8(a);
    decode_utf8_encode_utf8(b);
    lemma_encode_concat(x, y);
    encode_utf8_decode_utf8(x + y);
    assert(decode_utf8(a + b) == x + y);
    assert(pending + (x + y) =~= (pending + x) + y);
    reads_can_be_cut_anywhere(pending + x, y);
}

/// All content that events tell, in order.
pub open spec fn content_told(events: Seq<StreamEventView>) -> Seq<char>
    decreases events.len(),
{
    if events.len() == 0 {
        Seq::empty()
    } else {
        match events.last() {
            StreamEventView::ContentDelta(text) => content_told(events.drop_last()) + text,
            _ => content_told(events.drop_last()),
        }
    }
}

/// All thinking that events tell, in order.
pub open spec fn thinking_told(events: Seq<StreamEventView>) -> Seq<char>
    decreases events.len(),
{
    if events.len() == 0 {
        Seq::empty()
    } else {
        match events.last() {
            StreamEventView::ThinkingDelta(text) => thinking_told(events.drop_last()) + text,
            _ => thinking_told(events.drop_last()),
        }
    }
}

/// All that events tell of the arguments of one tool call, in order.
pub open spec fn arguments_told(events: Seq<StreamEventView>, at: nat) -> Seq<char>
    decreases events.len(),
{
    if events.len() == 0 {
        Seq::empty()
    } else {
        let before = arguments_told(events.drop_last(), at);
        match events.last() {
            StreamEventView::ToolCallDelta { index, arguments } => if index == at {
                before + arguments
            } else {
                before
            },
            _ => before,
        }
    }
}

/// The arguments of a tool call so far; none where the call has not begun.
pub open spec fn arguments_of(calls: Seq<PendingCallView>, at: nat) -> Seq<char> {
    if at < calls.len() {
        calls[at as int].arguments
    } else {
        Seq::empty()
    }
}

/// Whether a response is an earlier one with all added that the events tell.
pub open spec fn told_from(base: Response, p: Progress) -> bool {
    &&& p.response.content == base.content + content_told(p.events)
    &&& p.response.reasoning == base.reasoning + thinking_told(p.events)
    &&& forall|at: nat|
        #[trigger] arguments_of(p.response.calls, at) == arguments_of(base.calls, at)
            + arguments_told(p.events, at)
}

/// A response that has no events yet is told in full.
proof fn lemma_told_at_start(base: Response)
    ensures
        told_from(base, Progress { response: base, events: Seq::empty() }),
{
    assert(base.content + Seq::<char>::empty() =~= base.content);
    assert(base.reasoning + Seq::<char>::empty() =~= base.reasoning);
    let p = Progress { response: base, events: Seq::empty() };
    assert forall|at: nat| #[trigger] arguments_of(p.response.calls, at) == arguments_of(
        base.calls,
        at,
    ) + arguments_told(p.events, at) by {
        assert(arguments_of(base.calls, at) + Seq::<char>::empty() =~= arguments_of(
            base.calls,
            at,
        ));
    }
}

/// One more event that changes nothing of what was told.
proof fn lemma_told_push(events: Seq<StreamEventView>, event: StreamEventView)
    ensures
        events.push(event).drop_last() == events,
        events.push(event).last() == event,
{
    assert(events.push(event).drop_last() =~= events);
}

/// A piece of a tool call is told in full.
proof fn lemma_told_call(base: Response, p: Progress, call: StreamToolCall)
    requires
        told_from(base, p),
    ensures
        told_from(base, with_call(p, call)),
{
    let i = call.index as nat;
    let wide = padded(p.response.calls, i + 1);
    let known = with_call_id(wide, i as int, opt_view(call.id));
    let named = Progress { response: Response { calls: known, ..p.response }, ..p };
    assert forall|at: nat| #[trigger] arguments_of(known, at) == arguments_of(
        p.response.calls,
        at,
    ) by {}
    assert forall|at: nat| #[trigger] arguments_of(named.response.calls, at) == arguments_of(
        base.calls,
        at,
    ) + arguments_told(named.events, at) by {
        assert(arguments_of(p.response.calls, at) == arguments_of(base.calls, at)
            + arguments_told(p.events, at));
    }
    assert(told_from(base, named));
    if let Some(function) = call.function {
        let begun = with_call_name(named, i, opt_view(function.name));
        if opt_view(function.name) is Some {
            lemma_told_push(named.events, begun.events.last());
            assert forall|at: nat| #[trigger] arguments_of(begun.response.calls, at)
                == arguments_of(base.calls, at) + arguments_told(begun.events, at) by {
                assert(arguments_of(begun.response.calls, at) == arguments_of(
                    named.response.calls,
                    at,
                ));
            }
        }
        assert(told_from(base, begun));
        let done = with_call_arguments(begun, i, opt_view(function.arguments));
        if let Some(arguments) = opt_view(function.arguments) {
            lemma_told_push(begun.events, done.events.last());
            assert forall|at: nat| #[trigger] arguments_of(done.response.calls, at)
                == arguments_of(base.calls, at) + arguments_told(done.events, at) by {
                assert(arguments_of(begun.response.calls, at) == arguments_of(base.calls, at)
                    + arguments_told(begun.events, at));
                if at == i {
                    assert(arguments_of(done.response.calls, at) =~= arguments_of(base.calls, at)
                        + arguments_told(done.events, at));
                }
            }
        }
    }
}

/// Pieces of tool calls are told in full.
proof fn lemma_told_calls(base: Response, p: Progress, calls: Seq<StreamToolCall>)
    requires
        told_from(base, p),
    ensures
        told_from(base, with_calls(p, calls)),
    decreases calls.len(),
{
    if calls.len() > 0 {
        lemma_told_calls(base, p, calls.drop_last());
        lemma_told_call(base, with_calls(p, calls.drop_last()), calls.last());
    }
}

/// An event that carries no text leaves what was told as it is.
proof fn lemma_told_other(base: Response, p: Progress, q: Progress)
    requires
        told_from(base, p),
        q.response == p.response,
        q.events == p.events.push(q.events.last()),
        !(q.events.last() is ContentDelta),
        !(q.events.last() is ThinkingDelta),
        !(q.events.last() is ToolCallDelta),
    ensures
        told_from(base, q),
{
    lemma_told_push(p.events, q.events.last());
    assert forall|at: nat| #[trigger] arguments_of(q.response.calls, at) == arguments_of(
        base.calls,
        at,
    ) + arguments_told(q.events, at) by {
        assert(arguments_of(p.response.calls, at) == arguments_of(base.calls, at)
            + arguments_told(p.events, at));
    }
}

/// What a chunk's first choice adds is told in full.
proof fn lemma_told_delta(base: Response, chunk: StreamChunk)
    requires
        chunk.choices@.len() > 0,
    ensures
        told_from(
            base,
            with_delta(Progress { response: base, events: Seq::empty() }, chunk),
        ),
{
    let p = Progress { response: base, events: Seq::empty() };
    let delta = chunk.choices@[0].delta;
    lemma_told_at_start(base);
    let q = with_reasoning(p, opt_view(delta.reasoning_content));
    if opt_view(delta.reasoning_content) is Some {
        lemma_told_push(p.events, q.events.last());
        assert(q.response.reasoning =~= base.reasoning + thinking_told(q.events));
        assert forall|at: nat| #[trigger] arguments_of(q.response.calls, at) == arguments_of(
            base.calls,
            at,
        ) + arguments_told(q.events, at) by {
            assert(arguments_of(p.response.calls, at) == arguments_of(base.calls, at)
                + arguments_told(p.events, at));
        }
    }
    assert(told_from(base, q));
    let r = with_content(q, opt_view(delta.content));
    if opt_view(delta.content) is Some {
        lemma_told_push(q.events, r.events.last());
        assert(r.response.content =~= base.content + content_told(r.events));
        assert forall|at: nat| #[trigger] arguments_of(r.response.calls, at) == arguments_of(
            base.calls,
            at,
        ) + arguments_told(r.events, at) by {
            assert(arguments_of(q.response.calls, at) == arguments_of(base.calls, at)
                + arguments_told(q.events, at));
        }
    }
    assert(told_from(base, r));
    if let Some(calls) = delta.tool_calls {
        lemma_told_calls(base, r, calls@);
    }
}

/// Whatever a chunk adds to a response is told by its events, piece by piece.
pub proof fn chunks_are_told_in_full(base: Response, chunk: StreamChunk)
    ensures
        told_from(base, after_chunk(base, chunk)),
{
    let p = Progress { response: base, events: Seq::empty() };
    lemma_told_at_start(base);
    if chunk.usage is Some {
        lemma_told_other(base, p, with_done(p, chunk.usage));
    } else if chunk.choices@.len() > 0 {
        lemma_told_delta(base, chunk);
        let q = with_delta(p, chunk);
        lemma_told_other(base, q, with_done(q, None));
    }
}

/// A response before anything has arrived.
pub open spec fn no_response() -> Response {
    Response { content: Seq::empty(), reasoning: Seq::empty(), calls: Seq::empty() }
}

/// What arrivals one after another add up to, with all events in order.
pub open spec fn after_arrivals(arrivals: Seq<Arrival>) -> Heard
    decreases arrivals.len(),
{
    if arrivals.len() == 0 {
        Heard { response: no_response(), ended: false, events: Seq::empty() }
    } else {
        after_arrival(after_arrivals(arrivals.drop_last()), arrivals.last())
    }
}

/// Events told one after another tell what they tell in turn.
proof fn lemma_told_concat(a: Seq<StreamEventView>, b: Seq<StreamEventView>, at: nat)
    ensures
        content_told(a + b) == content_told(a) + content_told(b),
        thinking_told(a + b) == thinking_told(a) + thinking_told(b),
        arguments_told(a + b, at) == arguments_told(a, at) + arguments_told(b, at),
    decreases b.len(),
{
    if b.len() == 0 {
        assert(a + b =~= a);
        assert(content_told(a) + content_told(b) =~= content_told(a));
        assert(thinking_told(a) + thinking_told(b) =~= thinking_told(a));
        assert(arguments_told(a, at) + arguments_told(b, at) =~= arguments_told(a, at));
    } else {
        lemma_told_concat(a, b.drop_last(), at);
        assert((a + b).drop_last() =~= a + b.drop_last());
        assert((a + b).last() == b.last());
        assert(content_told(a + b) =~= content_told(a) + content_told(b));
        assert(thinking_told(a + b) =~= thinking_told(a) + thinking_told(b));
        assert(arguments_told(a + b, at) =~= arguments_told(a, at) + arguments_told(b, at));
    }
}

/// Whatever an arrival adds to a response is told by its events, piece by piece.
proof fn lemma_arrival_told(base: Response, arrival: Arrival)
    ensures
        told_from(base, arrival_step(base, arrival)),
{
    match arrival {
        Arrival::End => {
            let p = Progress { response: base, events: Seq::empty() };
            lemma_told_at_start(base);
            lemma_told_other(base, p, with_done(p, None));
        },
        Arrival::Chunk(chunk) => {
            chunks_are_told_in_full(base, chunk);
        },
    }
}

/// A streamed response adds up to what its events told: its content, its thinking and
/// the arguments of its tool calls are the told pieces in order.
pub proof fn responses_add_up_to_what_was_told(arrivals: Seq<Arrival>)
    ensures
        told_from(
            no_response(),
            Progress {
                response: after_arrivals(arrivals).response,
                events: after_arrivals(arrivals).events,
            },
        ),
    decreases arrivals.len(),
{
    if arrivals.len() == 0 {
        lemma_told_at_start(no_response());
    } else {
        responses_add_up_to_what_was_told(arrivals.drop_last());
        let before = after_arrivals(arrivals.drop_last());
        let whole = after_arrivals(arrivals);
        if !before.ended {
            let step = arrival_step(before.response, arrivals.last());
            lemma_arrival_told(before.response, arrivals.last());
            lemma_told_concat(before.events, step.events, 0);
            assert(whole.response.content =~= no_response().content + content_told(whole.events));
            assert(whole.response.reasoning =~= no_response().reasoning + thinking_told(
                whole.events,
            ));
            assert forall|at: nat| #[trigger] arguments_of(whole.response.calls, at)
                == arguments_of(no_response().calls, at) + arguments_told(whole.events, at) by {
                lemma_told_concat(before.events, step.events, at);
                assert(arguments_of(step.response.calls, at) == arguments_of(
                    before.response.calls,
                    at,
                ) + arguments_told(step.events, at));
                assert(arguments_of(before.response.calls, at) == arguments_of(
                    no_response().calls,
                    at,
                ) + arguments_told(before.events, at));
                assert(arguments_of(whole.response.calls, at) =~= arguments_of(
                    no_response().calls,
                    at,
                ) + arguments_told(whole.events, at));
            }
        }
    }
}

/// No piece of a tool call is an end.
proof fn lemma_calls_tell_no_end(p: Progress, calls: Seq<StreamToolCall>)
    requires
        forall|i: int| 0 <= i < p.events.len() ==> !(#[trigger] p.events[i] is Done),
    ensures
        forall|i: int|
            0 <= i < with_calls(p, calls).events.len() ==> !(#[trigger] with_calls(
                p,
                calls,
            ).events[i] is Done),
    decreases calls.len(),
{
    if calls.len() > 0 {
        lemma_calls_tell_no_end(p, calls.drop_last());
    }
}

/// The end of a response is told by the last event of the chunk that ends it, with the
/// message of all that came before, and by no other event.
pub proof fn ends_are_told_once(base: Response, chunk: StreamChunk)
    ensures
        ({
            let step = after_chunk(base, chunk);
            &&& forall|i: int|
                0 <= i < step.events.len() ==> (#[trigger] step.events[i] is Done <==> (
                ends_response(chunk) && i == step.events.len() - 1))
            &&& ends_response(chunk) ==> step.events.len() > 0 && step.events.last() == (
            StreamEventView::Done {
                message: response_message(step.response),
                usage: chunk.usage,
            })
        }),
{
    let p = Progress { response: base, events: Seq::empty() };
    if chunk.usage is None && chunk.choices@.len() > 0 {
        let delta = chunk.choices@[0].delta;
        let told = with_content(
            with_reasoning(p, opt_view(delta.reasoning_content)),
            opt_view(delta.content),
        );
        if let Some(calls) = delta.tool_calls {
            lemma_calls_tell_no_end(told, calls@);
        }
    }
}

/// The usage that an end tells: that of a chunk, and none with the end mark.
pub open spec fn usage_of(arrival: Arrival) -> Option<Usage> {
    match arrival {
        Arrival::End => None,
        Arrival::Chunk(chunk) => chunk.usage,
    }
}

/// The events of an arrival tell the end exactly where it is one, once and last.
proof fn lemma_arrival_end(base: Response, arrival: Arrival)
    ensures
        ({
            let step = arrival_step(base, arrival);
            &&& forall|i: int|
                0 <= i < step.events.len() ==> (#[trigger] step.events[i] is Done <==> (is_end(
                    arrival,
                ) && i == step.events.len() - 1))
            &&& is_end(arrival) ==> step.events.len() > 0 && step.events.last() == (
            StreamEventView::Done {
                message: response_message(step.response),
                usage: usage_of(arrival),
            })
        }),
{
    if let Arrival::Chunk(chunk) = arrival {
        ends_are_told_once(base, chunk);
    }
}

/// A stream ends once: the end is told exactly where some arrival is an end, by one event,
/// and no event follows it.
pub proof fn streams_end_once(arrivals: Seq<Arrival>)
    ensures
        ({
            let heard = after_arrivals(arrivals);
            &&& heard.ended <==> exists|i: int|
                0 <= i < arrivals.len() && is_end(#[trigger] arrivals[i])
            &&& heard.ended ==> heard.events.len() > 0
            &&& forall|i: int|
                0 <= i < heard.events.len() ==> (#[trigger] heard.events[i] is Done <==> (
                heard.ended && i == heard.events.len() - 1))
        }),
    decreases arrivals.len(),
{
    if arrivals.len() > 0 {
        let last = arrivals[arrivals.len() - 1];
        let fewer = arrivals.drop_last();
        streams_end_once(fewer);
        let before = after_arrivals(fewer);
        let heard = after_arrivals(arrivals);
        if before.ended {
            let i = choose|i: int| 0 <= i < fewer.len() && is_end(#[trigger] fewer[i]);
            assert(is_end(arrivals[i]));
        } else {
            let step = arrival_step(before.response, last);
            lemma_arrival_end(before.response, last);
            assert forall|i: int| 0 <= i < heard.events.len() implies (#[trigger] heard.events[i]
                is Done <==> (heard.ended && i == heard.events.len() - 1)) by {
                if i < before.events.len() {
                    assert(heard.events[i] == before.events[i]);
                } else {
                    assert(heard.events[i] == step.events[i - before.events.len()]);
                }
            }
            assert forall|i: int| 0 <= i < fewer.len() implies !is_end(
                #[trigger] arrivals[i],
            ) by {
                assert(!is_end(fewer[i]));
            }
        }
    }
}

/// The first end counts: it tells the message of all that came before and its own usage,
/// and whatever arrives behind it changes nothing.
pub proof fn the_first_end_counts(arrivals: Seq<Arrival>, at: int)
    requires
        0 <= at < arrivals.len(),
        is_end(arrivals[at]),
        forall|i: int| 0 <= i < at ==> !is_end(#[trigger] arrivals[i]),
    ensures
        after_arrivals(arrivals) == after_arrivals(arrivals.take(at + 1)),
        after_arrivals(arrivals).events.len() > 0,
        after_arrivals(arrivals).events.last() == (StreamEventView::Done {
            message: response_message(after_arrivals(arrivals).response),
            usage: usage_of(arrivals[at]),
        }),
    decreases arrivals.len(),
{
    let fewer = arrivals.drop_last();
    streams_end_once(fewer);
    if at == arrivals.len() - 1 {
        assert(arrivals.take(at + 1) =~= arrivals);
        let before = after_arrivals(fewer);
        assert(!before.ended) by {
            if before.ended {
                let i = choose|i: int| 0 <= i < fewer.len() && is_end(#[trigger] fewer[i]);
                assert(is_end(arrivals[i]));
            }
        }
        let step = arrival_step(before.response, arrivals[at]);
        lemma_arrival_end(before.response, arrivals[at]);
        assert(after_arrivals(arrivals).events.last() == step.events.last());
    } else {
        assert(is_end(fewer[at]));
        assert forall|i: int| 0 <= i < at implies !is_end(#[trigger] fewer[i]) by {
            assert(!is_end(arrivals[i]));
        }
        the_first_end_counts(fewer, at);
        assert(fewer.take(at + 1) =~= arrivals.take(at + 1));
    }
}

/// What the data of some lines brings, where `chunk_of` says which chunk a piece of JSON
/// is.
pub open spec fn arrivals_of(
    lines: Seq<StreamLineView>,
    chunk_of: spec_fn(Seq<char>) -> StreamChunk,
) -> Seq<Arrival> {
    lines.map_values(
        |line: StreamLineView|
            match line {
                StreamLineView::Done => Arrival::End,
                StreamLineView::Data(data) => Arrival::Chunk(chunk_of(data)),
            },
    )
}

/// A whole body ends once: among its complete lines the first end mark, or the first chunk
/// that ends the response, is told, as the last event, with the usage of that chunk and
/// the message of all before; where there is none, no end is told.
pub proof fn bodies_end_once(
    body: Seq<char>,
    chunk_of: spec_fn(Seq<char>) -> StreamChunk,
    at: int,
)
    requires
        0 <= at <= complete_data(body).len(),
        forall|i: int|
            0 <= i < at ==> !is_end(#[trigger] arrivals_of(complete_data(body), chunk_of)[i]),
        at < complete_data(body).len() ==> is_end(
            arrivals_of(complete_data(body), chunk_of)[at],
        ),
    ensures
        ({
            let arrivals = arrivals_of(complete_data(body), chunk_of);
            let events = after_arrivals(arrivals).events;
            &&& forall|i: int|
                0 <= i < events.len() ==> (#[trigger] events[i] is Done <==> (at < arrivals.len()
                    && i == events.len() - 1))
            &&& at < arrivals.len() ==> events.len() > 0 && events.last() == (
            StreamEventView::Done {
                message: response_message(after_arrivals(arrivals.take(at + 1)).response),
                usage: usage_of(arrivals[at]),
            })
        }),
{
    let arrivals = arrivals_of(complete_data(body), chunk_of);
    streams_end_once(arrivals);
    if at < arrivals.len() {
        the_first_end_counts(arrivals, at);
    } else if after_arrivals(arrivals).ended {
        let i = choose|i: int| 0 <= i < arrivals.len() && is_end(#[trigger] arrivals[i]);
        assert(!is_end(arrivals[i]));
    }
}

/// Reads of a stream one after another.
pub open spec fn read_together(reads: Seq<Seq<char>>) -> Seq<char>
    decreases reads.len(),
{
    if reads.len() == 0 {
        Seq::empty()
    } else {
        read_together(reads.drop_last()) + reads.last()
    }
}

/// The data of the lines that reads of a stream complete, and the text that then waits.
pub open spec fn after_reads(reads: Seq<Seq<char>>) -> (Seq<StreamLineView>, Seq<char>)
    decreases reads.len(),
{
    if reads.len() == 0 {
        (Seq::empty(), Seq::empty())
    } else {
        let (lines, pending) = after_reads(reads.drop_last());
        (
            lines + complete_data(pending + reads.last()),
            incomplete_rest(pending + reads.last()),
        )
    }
}

/// However a body comes in reads, they bring the data of its complete lines.
pub proof fn reads_bring_the_whole_body(reads: Seq<Seq<char>>)
    ensures
        after_reads(reads).0 == complete_data(read_together(reads)),
        after_reads(reads).1 == incomplete_rest(read_together(reads)),
    decreases reads.len(),
{
    if reads.len() == 0 {
        assert(index_of(Seq::<char>::empty(), '\n') == 0);
        assert(after_reads(reads).0 =~= complete_data(read_together(reads)));
    } else {
        reads_bring_the_whole_body(reads.drop_last());
        reads_can_be_cut_anywhere(read_together(reads.drop_last()), reads.last());
    }
}

/// The message that a response ends with has for its content exactly the told pieces,
/// and none where nothing was told.
pub proof fn final_content_is_what_was_told(arrivals: Seq<Arrival>)
    ensures
        response_message(after_arrivals(arrivals).response).content == nonempty(
            content_told(after_arrivals(arrivals).events),
        ),
        response_message(after_arrivals(arrivals).response).reasoning_content == nonempty(
            thinking_told(after_arrivals(arrivals).events),
        ),
{
    responses_add_up_to_what_was_told(arrivals);
    let heard = after_arrivals(arrivals);
    assert(heard.response.content =~= content_told(heard.events));
    assert(heard.response.reasoning =~= thinking_told(heard.events));
}

/// A body is read line by line: the data of what stands before the first line feed, then
/// that of what follows. What follows the last line feed waits.
pub proof fn bodies_are_read_line_by_line(line: Seq<char>, rest: Seq<char>)
    requires
        free_of(line, '\n'),
    ensures
        complete_data(line + seq!['\n'] + rest) == line_data(line) + complete_data(rest),
        incomplete_rest(line + seq!['\n'] + rest) == incomplete_rest(rest),
        complete_data(line).len() == 0,
        incomplete_rest(line) == line,
{
    let body = line + seq!['\n'] + rest;
    lemma_index_of_is(body, '\n', line.len() as int);
    assert(body.take(line.len() as int) =~= line);
    assert(body.skip(line.len() as int + 1) =~= rest);
    lemma_index_of_is(line, '\n', line.len() as int);
}

/// A line that starts with the mark of data carries the data behind the mark, whole, with
/// only the white space around the line left aside, and the end mark is no data.
pub proof fn marked_lines_carry_their_data(before: Seq<char>, data: Seq<char>, after: Seq<char>)
    requires
        is_blank(before),
        is_blank(after),
        data.len() > 0,
        !is_white_space(data.last()),
    ensures
        line_data(before + ("data: "@ + data) + after) == (if data == "[DONE]"@ {
            seq![StreamLineView::Done]
        } else {
            seq![StreamLineView::Data(data)]
        }),
{
    reveal_strlit("data: ");
    let text = "data: "@ + data;
    assert(text[0] == 'd');
    assert(text.last() == data.last());
    surrounding_white_space_goes(before, text, after);
    assert(text.skip(6) =~= data);
    assert(text.take(6) =~= "data: "@);
}

/// A line that does not start with the mark of data carries none, and the mark alone
/// carries none either.
pub proof fn other_lines_carry_nothing(before: Seq<char>, text: Seq<char>, after: Seq<char>)
    requires
        is_blank(before),
        is_blank(after),
        text.len() > 0,
        !is_white_space(text[0]),
        !is_white_space(text.last()),
        !("data: "@.is_prefix_of(text)),
    ensures
        line_data(before + text + after).len() == 0,
        line_data(before).len() == 0,
{
    reveal_strlit("data: ");
    surrounding_white_space_goes(before, text, after);
    if has_prefix(text, "data: "@) {
        assert(text.take(6) =~= "data: "@);
    }
    trimming_takes_white_space_only(before);
    assert(trimmed(before).len() == 0) by {
        let (from, to) = choose|from: int, to: int|
            #![trigger before.subrange(from, to)]
            0 <= from <= to <= before.len() && trimmed(before) == before.subrange(from, to)
                && is_blank(before.take(from)) && is_blank(before.skip(to));
        if from < to {
            assert(trimmed(before)[0] == before[from]);
        }
    }
}

} // verus!
