//! What the message at the end of a stream holds of what the stream sent.

use vstd::prelude::*;
use crate::api::{opt_view, StreamEventView, StreamToolCall, ToolCallView};
use crate::stream::{
    after_arrival, arrival_step, finished_call, is_end, padded, response_message, with_call,
    with_call_id, with_calls, with_content, with_delta, with_reasoning, Arrival, PendingCallView,
    Progress,
};
use crate::stream_laws::after_arrivals;

verus! {

broadcast use vstd::seq::group_seq_axioms;

/// An optional text, or an empty one.
pub open spec fn text_or_none(text: Option<Seq<char>>) -> Seq<char> {
    match text {
        Some(text) => text,
        None => Seq::empty(),
    }
}

/// Whether an arrival brings a part of the response: a chunk with a choice and without a
/// usage.
pub open spec fn brings_a_part(arrival: Arrival) -> bool {
    arrival matches Arrival::Chunk(chunk) && chunk.usage is None && chunk.choices@.len() > 0
}

/// The content that arrivals bring, in order.
pub open spec fn content_sent(arrivals: Seq<Arrival>) -> Seq<char>
    decreases arrivals.len(),
{
    if arrivals.len() == 0 {
        Seq::empty()
    } else {
        let before = content_sent(arrivals.drop_last());
        if brings_a_part(arrivals.last()) {
            before + text_or_none(
                opt_view(arrivals.last()->Chunk_0.choices@[0].delta.content),
            )
        } else {
            before
        }
    }
}

/// The thinking that arrivals bring, in order.
pub open spec fn thinking_sent(arrivals: Seq<Arrival>) -> Seq<char>
    decreases arrivals.len(),
{
    if arrivals.len() == 0 {
        Seq::empty()
    } else {
        let before = thinking_sent(arrivals.drop_last());
        if brings_a_part(arrivals.last()) {
            before + text_or_none(
                opt_view(arrivals.last()->Chunk_0.choices@[0].delta.reasoning_content),
            )
        } else {
            before
        }
    }
}

/// The pieces of tool calls that an arrival brings.
pub open spec fn pieces_in(arrival: Arrival) -> Seq<StreamToolCall> {
    if brings_a_part(arrival) {
        match arrival->Chunk_0.choices@[0].delta.tool_calls {
            Some(pieces) => pieces@,
            None => Seq::empty(),
        }
    } else {
        Seq::empty()
    }
}

/// The pieces of tool calls that arrivals bring, in order.
pub open spec fn pieces_sent(arrivals: Seq<Arrival>) -> Seq<StreamToolCall>
    decreases arrivals.len(),
{
    if arrivals.len() == 0 {
        Seq::empty()
    } else {
        pieces_sent(arrivals.drop_last()) + pieces_in(arrivals.last())
    }
}

/// One more than the highest index among pieces.
pub open spec fn calls_begun(pieces: Seq<StreamToolCall>) -> nat
    decreases pieces.len(),
{
    if pieces.len() == 0 {
        0
    } else {
        let before = calls_begun(pieces.drop_last());
        if pieces.last().index < before {
            before
        } else {
            pieces.last().index as nat + 1
        }
    }
}

/// The identifier that was last sent for the call with an index.
pub open spec fn id_sent(pieces: Seq<StreamToolCall>, at: nat) -> Seq<char>
    decreases pieces.len(),
{
    if pieces.len() == 0 {
        Seq::empty()
    } else if pieces.last().index == at && pieces.last().id is Some {
        pieces.last().id->0@
    } else {
        id_sent(pieces.drop_last(), at)
    }
}

/// The name in a piece of a call.
pub open spec fn name_in(piece: StreamToolCall) -> Option<Seq<char>> {
    match piece.function {
        Some(function) => opt_view(function.name),
        None => None,
    }
}

/// The arguments in a piece of a call.
pub open spec fn arguments_in(piece: StreamToolCall) -> Option<Seq<char>> {
    match piece.function {
        Some(function) => opt_view(function.arguments),
        None => None,
    }
}

/// The name that was last sent for the call with an index.
pub open spec fn name_sent(pieces: Seq<StreamToolCall>, at: nat) -> Seq<char>
    decreases pieces.len(),
{
    if pieces.len() == 0 {
        Seq::empty()
    } else if pieces.last().index == at && name_in(pieces.last()) is Some {
        name_in(pieces.last())->0
    } else {
        name_sent(pieces.drop_last(), at)
    }
}

/// The arguments that were sent for the call with an index, piece behind piece.
pub open spec fn arguments_sent(pieces: Seq<StreamToolCall>, at: nat) -> Seq<char>
    decreases pieces.len(),
{
    if pieces.len() == 0 {
        Seq::empty()
    } else if pieces.last().index == at {
        arguments_sent(pieces.drop_last(), at) + text_or_none(arguments_in(pieces.last()))
    } else {
        arguments_sent(pieces.drop_last(), at)
    }
}

/// Whether calls are those that pieces spell out.
pub open spec fn spelled_out(calls: Seq<PendingCallView>, pieces: Seq<StreamToolCall>) -> bool {
    &&& calls.len() == calls_begun(pieces)
    &&& forall|at: nat|
        at < calls.len() ==> (#[trigger] calls[at as int]).id == id_sent(pieces, at)
            && calls[at as int].name == name_sent(pieces, at) && calls[at as int].arguments
            == arguments_sent(pieces, at)
}

/// Nothing is sent for an index above all those that are named.
proof fn lemma_nothing_sent(pieces: Seq<StreamToolCall>, at: nat)
    requires
        at >= calls_begun(pieces),
    ensures
        id_sent(pieces, at) == Seq::<char>::empty(),
        name_sent(pieces, at) == Seq::<char>::empty(),
        arguments_sent(pieces, at) == Seq::<char>::empty(),
    decreases pieces.len(),
{
    if pieces.len() > 0 {
        lemma_nothing_sent(pieces.drop_last(), at);
    }
}

/// The highest index counts however the pieces are ordered.
proof fn lemma_calls_begun(pieces: Seq<StreamToolCall>)
    ensures
        pieces.len() == 0 <==> calls_begun(pieces) == 0,
        forall|i: int|
            0 <= i < pieces.len() ==> (#[trigger] pieces[i]).index < calls_begun(pieces),
        pieces.len() > 0 ==> exists|i: int|
            0 <= i < pieces.len() && (#[trigger] pieces[i]).index + 1 == calls_begun(pieces),
    decreases pieces.len(),
{
    if pieces.len() > 0 {
        let fewer = pieces.drop_last();
        lemma_calls_begun(fewer);
        assert forall|i: int| 0 <= i < pieces.len() implies (#[trigger] pieces[i]).index
            < calls_begun(pieces) by {
            if i < fewer.len() {
                assert(fewer[i] == pieces[i]);
            }
        }
        if pieces.last().index < calls_begun(fewer) {
            let i = choose|i: int|
                0 <= i < fewer.len() && (#[trigger] fewer[i]).index + 1 == calls_begun(fewer);
            assert(pieces[i].index + 1 == calls_begun(pieces));
        } else {
            assert(pieces[pieces.len() - 1].index + 1 == calls_begun(pieces));
        }
    }
}

/// The events of one piece of a call, where `pieces` are all pieces with it: that a call
/// has begun, with the identifier so far, where the piece names one; then its arguments.
pub open spec fn events_of_piece(pieces: Seq<StreamToolCall>) -> Seq<StreamEventView> {
    let piece = pieces.last();
    let at = piece.index as nat;
    (match name_in(piece) {
        Some(name) => seq![
            StreamEventView::ToolCallBegin { index: at, id: id_sent(pieces, at), name },
        ],
        None => Seq::empty(),
    }) + (match arguments_in(piece) {
        Some(arguments) => seq![StreamEventView::ToolCallDelta { index: at, arguments }],
        None => Seq::empty(),
    })
}

/// The events of some pieces of calls that follow others.
pub open spec fn events_of_pieces(
    before: Seq<StreamToolCall>,
    pieces: Seq<StreamToolCall>,
) -> Seq<StreamEventView>
    decreases pieces.len(),
{
    if pieces.len() == 0 {
        Seq::empty()
    } else {
        events_of_pieces(before, pieces.drop_last()) + events_of_piece(before + pieces)
    }
}

/// One more piece is spelled out too, and told.
proof fn lemma_piece_spelled_out(p: Progress, pieces: Seq<StreamToolCall>, piece: StreamToolCall)
    requires
        spelled_out(p.response.calls, pieces),
    ensures
        spelled_out(with_call(p, piece).response.calls, pieces.push(piece)),
        with_call(p, piece).response.content == p.response.content,
        with_call(p, piece).response.reasoning == p.response.reasoning,
        with_call(p, piece).events == p.events + events_of_piece(pieces.push(piece)),
{
    let all = pieces.push(piece);
    assert(all.drop_last() =~= pieces);
    let i = piece.index as nat;
    let wide = padded(p.response.calls, i + 1);
    assert(wide.len() == calls_begun(all));
    assert forall|at: nat| at < wide.len() implies (#[trigger] wide[at as int]).id == id_sent(
        pieces,
        at,
    ) && wide[at as int].name == name_sent(pieces, at) && wide[at as int].arguments
        == arguments_sent(pieces, at) by {
        if at < p.response.calls.len() {
            assert(wide[at as int] == p.response.calls[at as int]);
        } else {
            lemma_nothing_sent(pieces, at);
        }
    }
    let known = with_call_id(wide, i as int, opt_view(piece.id));
    assert(known[i as int].id == id_sent(all, i));
    let done = with_call(p, piece);
    let calls = done.response.calls;
    assert(calls.len() == wide.len());
    assert forall|at: nat| at < calls.len() implies (#[trigger] calls[at as int]).id == id_sent(
        all,
        at,
    ) && calls[at as int].name == name_sent(all, at) && calls[at as int].arguments
        == arguments_sent(all, at) by {
        assert(wide[at as int].id == id_sent(pieces, at));
        if at == i {
            assert(arguments_sent(pieces, at) + Seq::<char>::empty() =~= arguments_sent(
                pieces,
                at,
            ));
        } else {
            assert(calls[at as int] == wide[at as int]);
        }
    }
    assert(done.events =~= p.events + events_of_piece(all));
}

/// More pieces are spelled out too, and told.
proof fn lemma_pieces_spelled_out(
    p: Progress,
    before: Seq<StreamToolCall>,
    pieces: Seq<StreamToolCall>,
)
    requires
        spelled_out(p.response.calls, before),
    ensures
        spelled_out(with_calls(p, pieces).response.calls, before + pieces),
        with_calls(p, pieces).response.content == p.response.content,
        with_calls(p, pieces).response.reasoning == p.response.reasoning,
        with_calls(p, pieces).events == p.events + events_of_pieces(before, pieces),
    decreases pieces.len(),
{
    if pieces.len() == 0 {
        assert(before + pieces =~= before);
        assert(p.events + Seq::<StreamEventView>::empty() =~= p.events);
    } else {
        let fewer = pieces.drop_last();
        lemma_pieces_spelled_out(p, before, fewer);
        lemma_piece_spelled_out(with_calls(p, fewer), before + fewer, pieces.last());
        assert((before + fewer).push(pieces.last()) =~= before + pieces);
        assert(with_calls(p, pieces).events =~= p.events + events_of_pieces(before, pieces));
    }
}

/// The events that an arrival means after the given ones: the thinking, the content and
/// the pieces of calls that it brings, in this order, and where it ends the response the
/// end, with the usage where it has one.
pub open spec fn events_brought(arrivals: Seq<Arrival>) -> Seq<StreamEventView> {
    let arrival = arrivals.last();
    (if brings_a_part(arrival) {
        let delta = arrival->Chunk_0.choices@[0].delta;
        (match delta.reasoning_content {
            Some(text) => seq![StreamEventView::ThinkingDelta(text@)],
            None => Seq::empty(),
        }) + (match delta.content {
            Some(text) => seq![StreamEventView::ContentDelta(text@)],
            None => Seq::empty(),
        }) + events_of_pieces(pieces_sent(arrivals.drop_last()), pieces_in(arrival))
    } else {
        Seq::empty()
    }) + (if ends_it(arrival) {
        seq![
            StreamEventView::Done {
                message: response_message(after_arrivals(arrivals).response),
                usage: match arrival {
                    Arrival::End => None,
                    Arrival::Chunk(chunk) => chunk.usage,
                },
            },
        ]
    } else {
        Seq::empty()
    })
}

/// Whether an arrival is the end mark, a chunk with a usage, or a chunk whose first choice
/// stops or asks for tool calls.
pub open spec fn ends_it(arrival: Arrival) -> bool {
    match arrival {
        Arrival::End => true,
        Arrival::Chunk(chunk) => chunk.usage is Some || (chunk.choices@.len() > 0 && match
            chunk.choices@[0].finish_reason {
            Some(reason) => reason@ == "stop"@ || reason@ == "tool_calls"@,
            None => false,
        }),
    }
}

/// What one more arrival adds where none before it was an end.
proof fn lemma_part_added(arrivals: Seq<Arrival>)
    requires
        arrivals.len() > 0,
        !after_arrivals(arrivals.drop_last()).ended,
        spelled_out(
            after_arrivals(arrivals.drop_last()).response.calls,
            pieces_sent(arrivals.drop_last()),
        ),
    ensures
        ({
            let before = after_arrivals(arrivals.drop_last());
            let heard = after_arrivals(arrivals);
            let part = brings_a_part(arrivals.last());
            let delta = arrivals.last()->Chunk_0.choices@[0].delta;
            &&& heard.response.content == before.response.content + (if part {
                text_or_none(opt_view(delta.content))
            } else {
                Seq::empty()
            })
            &&& heard.response.reasoning == before.response.reasoning + (if part {
                text_or_none(opt_view(delta.reasoning_content))
            } else {
                Seq::empty()
            })
            &&& spelled_out(heard.response.calls, pieces_sent(arrivals))
            &&& heard.events == before.events + events_brought(arrivals)
            &&& heard.ended == ends_it(arrivals.last())
        }),
{
    let fewer = arrivals.drop_last();
    let before = after_arrivals(fewer);
    let heard = after_arrivals(arrivals);
    let arrival = arrivals.last();
    let base = before.response;
    let p = Progress { response: base, events: Seq::empty() };
    assert(is_end(arrival) == ends_it(arrival));
    assert(heard == after_arrival(before, arrival));
    if brings_a_part(arrival) {
        let chunk = arrival->Chunk_0;
        let delta = chunk.choices@[0].delta;
        let q = with_reasoning(p, opt_view(delta.reasoning_content));
        let r = with_content(q, opt_view(delta.content));
        assert(r.response.reasoning =~= base.reasoning + text_or_none(
            opt_view(delta.reasoning_content),
        ));
        assert(r.response.content =~= base.content + text_or_none(opt_view(delta.content)));
        assert(r.response.calls == base.calls);
        lemma_pieces_spelled_out(r, pieces_sent(fewer), pieces_in(arrival));
        assert(with_delta(p, chunk) == with_calls(r, pieces_in(arrival)));
        let step = arrival_step(base, arrival);
        assert(heard.response == with_delta(p, chunk).response);
        assert(step.events =~= events_brought(arrivals));
        assert(heard.events =~= before.events + events_brought(arrivals));
    } else {
        assert(pieces_sent(fewer) + Seq::<StreamToolCall>::empty() =~= pieces_sent(fewer));
        assert(base.content + Seq::<char>::empty() =~= base.content);
        assert(base.reasoning + Seq::<char>::empty() =~= base.reasoning);
        assert(heard.response == base);
        assert(arrival_step(base, arrival).events =~= events_brought(arrivals));
        assert(heard.events =~= before.events + events_brought(arrivals));
    }
}

/// What arrivals add up to where none but the last is an end.
proof fn lemma_parts_added(arrivals: Seq<Arrival>)
    requires
        forall|i: int| 0 <= i < arrivals.len() - 1 ==> !ends_it(#[trigger] arrivals[i]),
    ensures
        after_arrivals(arrivals).response.content == content_sent(arrivals),
        after_arrivals(arrivals).response.reasoning == thinking_sent(arrivals),
        spelled_out(after_arrivals(arrivals).response.calls, pieces_sent(arrivals)),
        arrivals.len() > 0 ==> after_arrivals(arrivals).ended == ends_it(arrivals.last())
            && !after_arrivals(arrivals.drop_last()).ended,
    decreases arrivals.len(),
{
    if arrivals.len() > 0 {
        let fewer = arrivals.drop_last();
        assert forall|i: int| 0 <= i < fewer.len() - 1 implies !ends_it(#[trigger] fewer[i]) by {
            assert(fewer[i] == arrivals[i]);
        }
        lemma_parts_added(fewer);
        if fewer.len() > 0 {
            assert(fewer.last() == arrivals[arrivals.len() - 2]);
        }
        lemma_part_added(arrivals);
        assert(after_arrivals(fewer).response.content + Seq::<char>::empty() =~= after_arrivals(
            fewer,
        ).response.content);
        assert(after_arrivals(fewer).response.reasoning + Seq::<char>::empty() =~= after_arrivals(
            fewer,
        ).response.reasoning);
    }
}

/// The message at the end of a stream holds all that was sent. Its content and its
/// thinking are the pieces that were sent, in order. It holds every tool call that was
/// begun, whether or not there is content: as many as the highest index that was sent and
/// one more, each with the identifier and the name last sent for its index and with the
/// pieces of its arguments in order. Each of the three is absent only where nothing of it
/// was sent.
pub proof fn messages_hold_all_that_was_sent(arrivals: Seq<Arrival>)
    requires
        forall|i: int| 0 <= i < arrivals.len() - 1 ==> !ends_it(#[trigger] arrivals[i]),
    ensures
        ({
            let message = response_message(after_arrivals(arrivals).response);
            let content = content_sent(arrivals);
            let thinking = thinking_sent(arrivals);
            let pieces = pieces_sent(arrivals);
            &&& message.role == "assistant"@
            &&& content.len() == 0 ==> message.content is None
            &&& content.len() > 0 ==> message.content == Some(content)
            &&& thinking.len() == 0 ==> message.reasoning_content is None
            &&& thinking.len() > 0 ==> message.reasoning_content == Some(thinking)
            &&& pieces.len() == 0 <==> message.tool_calls is None
            &&& message.tool_calls matches Some(calls) ==> {
                &&& forall|i: int|
                    0 <= i < pieces.len() ==> (#[trigger] pieces[i]).index < calls.len()
                &&& exists|i: int|
                    0 <= i < pieces.len() && (#[trigger] pieces[i]).index + 1 == calls.len()
                &&& forall|at: nat|
                    at < calls.len() ==> #[trigger] calls[at as int] == (ToolCallView {
                        id: id_sent(pieces, at),
                        call_type: "function"@,
                        name: name_sent(pieces, at),
                        arguments: arguments_sent(pieces, at),
                    })
            }
        }),
{
    lemma_parts_added(arrivals);
    lemma_calls_begun(pieces_sent(arrivals));
    let response = after_arrivals(arrivals).response;
    if let Some(calls) = response_message(response).tool_calls {
        assert forall|at: nat| at < calls.len() implies #[trigger] calls[at as int]
            == (ToolCallView {
            id: id_sent(pieces_sent(arrivals), at),
            call_type: "function"@,
            name: name_sent(pieces_sent(arrivals), at),
            arguments: arguments_sent(pieces_sent(arrivals), at),
        }) by {
            assert(calls[at as int] == finished_call(response.calls[at as int]));
        }
    }
}

/// Each arrival before an end, and the end itself, is told by its own events: what it
/// brings, in order, and the end with the message where it is one. What comes behind an
/// end is not told.
pub proof fn arrivals_are_told_as_they_come(arrivals: Seq<Arrival>)
    requires
        arrivals.len() > 0,
        forall|i: int| 0 <= i < arrivals.len() - 1 ==> !ends_it(#[trigger] arrivals[i]),
    ensures
        after_arrivals(arrivals).events == after_arrivals(arrivals.drop_last()).events
            + events_brought(arrivals),
        after_arrivals(arrivals).ended == ends_it(arrivals.last()),
        forall|later: Arrival|
            ends_it(arrivals.last()) ==> #[trigger] after_arrivals(arrivals.push(later))
                == after_arrivals(arrivals),
{
    let fewer = arrivals.drop_last();
    lemma_parts_added(arrivals);
    assert forall|i: int| 0 <= i < fewer.len() - 1 implies !ends_it(#[trigger] fewer[i]) by {
        assert(fewer[i] == arrivals[i]);
    }
    lemma_parts_added(fewer);
    lemma_part_added(arrivals);
    assert forall|later: Arrival| ends_it(arrivals.last()) implies #[trigger] after_arrivals(
        arrivals.push(later),
    ) == after_arrivals(arrivals) by {
        assert(arrivals.push(later).drop_last() =~= arrivals);
    }
}

} // verus!
