//! What holds of the interface over several keys and events.

use vstd::prelude::*;
use crate::agent::UiEventView;
use crate::conversation::{
    given_args, given_output, last_block_at, last_tool_at, stopped, with_thinking_ended,
    with_tool_args, with_tool_begun, with_tool_result, with_tools_stopped, ItemView,
};
use crate::ui::{
    after_agent_event, after_display, after_key, elapsed, key_outcome, valid, AppView,
    DisplayEventView, Key, KeyCode, KeyOutcomeView, CANCEL_WINDOW_MS,
};

verus! {

broadcast use vstd::seq::group_seq_axioms;

/// One Esc cancels nothing, but is remembered; a second one cancels exactly if it comes
/// within the window.
pub proof fn two_escapes_in_time_cancel(v: AppView, key: Key, first: u64, second: u64)
    requires
        valid(v),
        v.busy,
        !v.pending_cancel,
        key.code is Esc,
        key.pressed,
    ensures
        key_outcome(v, key, first) is Continue,
        after_key(v, key, first).pending_cancel,
        key_outcome(after_key(v, key, first), key, second) is Cancel <==> elapsed(first, second)
            < CANCEL_WINDOW_MS,
{
}

/// While the agent is not busy, no key cancels anything.
pub proof fn nothing_is_cancelled_while_idle(v: AppView, key: Key, now: u64)
    requires
        !v.busy,
    ensures
        !(key_outcome(v, key, now) is Cancel),
{
}

/// While the agent is busy, no key changes the input or what goes with it, and nothing
/// more is sent.
pub proof fn input_is_locked_while_busy(v: AppView, key: Key, now: u64)
    requires
        v.busy,
    ensures
        after_key(v, key, now).input == v.input,
        after_key(v, key, now).cursor == v.cursor,
        after_key(v, key, now).pending_images == v.pending_images,
        after_key(v, key, now).busy,
        !(key_outcome(v, key, now) is Submit),
{
}

/// A typed character can be taken back.
pub proof fn typing_can_be_taken_back(v: AppView, ch: char, typed: Key, back: Key, now: u64)
    requires
        valid(v),
        !v.busy,
        typed.code == KeyCode::Char(ch),
        typed.pressed,
        !typed.ctrl,
        !typed.alt,
        back.code is Backspace,
        back.pressed,
    ensures
        after_key(after_key(v, typed, now), back, now) == v,
{
    let w = after_key(v, typed, now);
    let c = v.cursor as int;
    assert(w.input == v.input.take(c) + seq![ch] + v.input.skip(c));
    assert(w.input.take(c) =~= v.input.take(c));
    assert(w.input.skip(c + 1) =~= v.input.skip(c));
    assert(v.input.take(c) + v.input.skip(c) =~= v.input);
}

/// A message is sent once: it carries all of the input, empties it, and until the turn
/// is over no key sends anything.
pub proof fn messages_are_sent_once(v: AppView, key: Key, now: u64, other: Key, later: u64)
    requires
        valid(v),
        key_outcome(v, key, now) is Submit,
    ensures
        key_outcome(v, key, now) == (KeyOutcomeView::Submit {
            text: v.input,
            images: v.pending_images,
        }),
        after_key(v, key, now).input.len() == 0,
        after_key(v, key, now).pending_images.len() == 0,
        after_key(v, key, now).busy,
        !(key_outcome(after_key(v, key, now), other, later) is Submit),
{
}

/// The end of a turn unlocks the input, which it leaves as it is.
pub proof fn the_end_of_a_turn_unlocks(v: AppView)
    ensures
        !after_agent_event(v, UiEventView::Done).busy,
        !after_agent_event(v, UiEventView::Done).pending_cancel,
        after_agent_event(v, UiEventView::Done).input == v.input,
        after_agent_event(v, UiEventView::Done).cursor == v.cursor,
{
}

proof fn lemma_thinking_ended(items: Seq<ItemView>)
    ensures
        with_thinking_ended(items).len() == items.len(),
        forall|i: int|
            0 <= i < items.len() && !(items[i] is Thinking) ==> #[trigger] with_thinking_ended(
                items,
            )[i] == items[i],
    decreases items.len(),
{
    if items.len() > 0 && !(items.last() is Thinking) {
        lemma_thinking_ended(items.drop_last());
        assert forall|i: int| 0 <= i < items.len() && !(items[i] is Thinking) implies #[trigger]
        with_thinking_ended(items)[i] == items[i] by {
            if i < items.len() - 1 {
                assert(items.drop_last()[i] == items[i]);
            }
        }
    }
}

proof fn lemma_last_tool(items: Seq<ItemView>, index: usize)
    ensures
        last_tool_at(items, index) < items.len(),
    decreases items.len(),
{
    if items.len() > 0 {
        lemma_last_tool(items.drop_last(), index);
    }
}

/// The conversation never gets shorter: no event and no key takes anything away.
pub proof fn the_conversation_only_grows(v: AppView, event: DisplayEventView, key: Key, now: u64)
    ensures
        after_display(v, event).items.len() >= v.items.len(),
        after_key(v, key, now).items.len() >= v.items.len(),
{
    lemma_thinking_ended(v.items);
    if let DisplayEventView::ToolCallArgs { index, .. } = event {
        lemma_last_tool(v.items, index);
    }
    if let DisplayEventView::ToolResult { index, .. } = event {
        lemma_last_tool(v.items, index);
    }
}

/// A tool call gets a block, which alone is running, and its result goes to that block.
pub proof fn results_go_to_their_calls(
    v: AppView,
    name: Seq<char>,
    args: Seq<char>,
    output: Seq<char>,
)
    requires
        v.items.len() <= usize::MAX,
    ensures
        ({
            let index = v.items.len() as usize;
            let before = with_tools_stopped(with_thinking_ended(v.items));
            let called = after_agent_event(v, UiEventView::ToolCall { name, args_summary: args });
            let answered = after_agent_event(
                called,
                UiEventView::ToolResult { output_summary: output },
            );
            &&& called.items == before.push(
                ItemView::ToolBlock {
                    index,
                    name,
                    args_summary: Some(args),
                    output: Seq::empty(),
                    is_running: true,
                },
            )
            &&& answered.items == before.push(
                ItemView::ToolBlock {
                    index,
                    name,
                    args_summary: Some(args),
                    output,
                    is_running: false,
                },
            )
        }),
{
    let index = v.items.len() as usize;
    let before = with_tools_stopped(with_thinking_ended(v.items));
    let begun = with_tool_begun(v.items, index, name);
    let rest = with_tools_stopped(begun);
    let at = begun.len() - 1;
    assert(last_tool_at(begun, index) == at);
    assert(rest.drop_last() =~= before) by {
        assert forall|i: int| 0 <= i < before.len() implies rest[i] == before[i] by {
            assert(begun[i] == before[i]);
            assert(before[i] == stopped(with_thinking_ended(v.items)[i]));
        }
    }
    let called = with_tool_args(begun, index, args);
    assert(called =~= before.push(given_args(rest[at], args)));
    assert(last_block_at(called) == at);
    assert(last_tool_at(called, index) == at);
    let answered = with_tool_result(called, index, output);
    assert(answered =~= before.push(given_output(called[at], output)));
}

/// Whether an item is a running tool block.
pub open spec fn runs(item: ItemView) -> bool {
    item matches ItemView::ToolBlock { is_running, .. } && is_running
}

/// Once a tool call begins, no other tool block is running.
pub proof fn one_tool_runs_at_a_time(v: AppView, index: usize, name: Seq<char>, i: int)
    requires
        0 <= i < v.items.len(),
    ensures
        !runs(
            after_display(v, DisplayEventView::ToolCallBegin { index, name }).items[i],
        ),
{
    lemma_thinking_ended(v.items);
    let before = with_tools_stopped(with_thinking_ended(v.items));
    assert(with_tool_begun(v.items, index, name)[i] == before[i]);
    assert(before[i] == stopped(with_thinking_ended(v.items)[i]));
}

/// The state after some text has come in.
pub open spec fn after_texts(v: AppView, deltas: Seq<Seq<char>>) -> AppView
    decreases deltas.len(),
{
    if deltas.len() == 0 {
        v
    } else {
        after_display(
            after_texts(v, deltas.drop_last()),
            DisplayEventView::TextDelta(deltas.last()),
        )
    }
}

/// Some pieces of text in one.
pub open spec fn in_one(deltas: Seq<Seq<char>>) -> Seq<char>
    decreases deltas.len(),
{
    if deltas.len() == 0 {
        Seq::empty()
    } else {
        in_one(deltas.drop_last()) + deltas.last()
    }
}

/// What the assistant says is shown in full: the pieces of a text end up in one item
/// behind what was there.
pub proof fn texts_are_shown_in_full(v: AppView, deltas: Seq<Seq<char>>)
    ensures
        after_texts(after_display(v, DisplayEventView::TextStart), deltas).items
            == with_thinking_ended(v.items).push(ItemView::AssistantText(in_one(deltas))),
    decreases deltas.len(),
{
    let start = after_display(v, DisplayEventView::TextStart);
    if deltas.len() > 0 {
        texts_are_shown_in_full(v, deltas.drop_last());
        let before = after_texts(start, deltas.drop_last()).items;
        assert(before.drop_last() =~= with_thinking_ended(v.items));
    }
}

/// The state after some thinking has come in.
pub open spec fn after_thoughts(v: AppView, deltas: Seq<Seq<char>>) -> AppView
    decreases deltas.len(),
{
    if deltas.len() == 0 {
        v
    } else {
        after_display(
            after_thoughts(v, deltas.drop_last()),
            DisplayEventView::ThinkingDelta(deltas.last()),
        )
    }
}

/// What the assistant thinks is shown in full: the pieces end up in one item behind what
/// was there.
pub proof fn thoughts_are_shown_in_full(v: AppView, deltas: Seq<Seq<char>>)
    ensures
        after_thoughts(after_display(v, DisplayEventView::ThinkingStart), deltas).items
            == v.items.push(ItemView::Thinking { text: in_one(deltas), is_running: true }),
    decreases deltas.len(),
{
    let start = after_display(v, DisplayEventView::ThinkingStart);
    if deltas.len() > 0 {
        thoughts_are_shown_in_full(v, deltas.drop_last());
        let before = after_thoughts(start, deltas.drop_last()).items;
        assert(before.drop_last() =~= v.items);
    }
}

/// The state after some reports of usage, each of a context and of an output.
pub open spec fn after_usages(v: AppView, usages: Seq<(u64, u64)>) -> AppView
    decreases usages.len(),
{
    if usages.len() == 0 {
        v
    } else {
        after_display(
            after_usages(v, usages.drop_last()),
            DisplayEventView::TokenUsage { context: usages.last().0, output: usages.last().1 },
        )
    }
}

/// All output that some reports of usage tell of.
pub open spec fn output_of(usages: Seq<(u64, u64)>) -> nat
    decreases usages.len(),
{
    if usages.len() == 0 {
        0
    } else {
        output_of(usages.drop_last()) + usages.last().1 as nat
    }
}

/// Output counts add up over all responses, while the context is that of the latest one.
pub proof fn output_counts_add_up(v: AppView, usages: Seq<(u64, u64)>)
    requires
        v.total_output_tokens + output_of(usages) <= u64::MAX,
    ensures
        after_usages(v, usages).total_output_tokens == v.total_output_tokens + output_of(usages),
        usages.len() > 0 ==> after_usages(v, usages).context_tokens == usages.last().0,
    decreases usages.len(),
{
    if usages.len() > 0 {
        output_counts_add_up(v, usages.drop_last());
    }
}

} // verus!
