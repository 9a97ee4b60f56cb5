//! What the events do to the items of the conversation.

use vstd::prelude::*;
use crate::agent::UiEventView;
use crate::conversation::{
    last_block_at, last_tool_at, with_thinking_ended, with_tool_args, with_tool_begun,
    with_tool_result, with_tools_stopped, ItemView,
};
use crate::ui::{after_agent_event, after_display, AppView, DisplayEventView};

verus! {

broadcast use vstd::seq::group_seq_axioms;

/// Whether an index is that of the last item of a kind, or is below zero where there is no
/// such item.
pub open spec fn is_last(items: Seq<ItemView>, at: int, kind: spec_fn(ItemView) -> bool) -> bool {
    &&& at < items.len()
    &&& at >= 0 ==> kind(items[at])
    &&& forall|i: int| 0 <= i < items.len() && at < i ==> !kind(#[trigger] items[i])
}

/// Whether two conversations differ in no item but one.
pub open spec fn only_one_differs(a: Seq<ItemView>, b: Seq<ItemView>, at: int) -> bool {
    &&& a.len() == b.len()
    &&& forall|i: int| 0 <= i < a.len() && i != at ==> #[trigger] b[i] == a[i]
}

/// Whether an item is a tool block with an index.
pub open spec fn has_index(item: ItemView, wanted: usize) -> bool {
    item matches ItemView::ToolBlock { index, .. } && index == wanted
}

/// The end of thinking is the end of the last thinking item, whose text stays, and of no
/// other; every other item stays as it is.
pub proof fn the_last_thinking_ends(items: Seq<ItemView>, at: int)
    requires
        is_last(items, at, |item: ItemView| item is Thinking),
    ensures
        only_one_differs(items, with_thinking_ended(items), at),
        at >= 0 ==> (items[at] matches ItemView::Thinking { text, .. }
            && with_thinking_ended(items)[at] == (ItemView::Thinking { text, is_running: false })),
    decreases items.len(),
{
    let kind = |item: ItemView| item is Thinking;
    if items.len() > 0 {
        let fewer = items.drop_last();
        if at == items.len() - 1 {
            assert(kind(items[at]));
        } else {
            assert(!kind(items[items.len() - 1]));
            if at >= 0 {
                assert(kind(items[at]));
                assert(kind(fewer[at]));
            }
            assert forall|i: int| 0 <= i < fewer.len() && at < i implies !kind(
                #[trigger] fewer[i],
            ) by {
                assert(!kind(items[i]));
            }
            the_last_thinking_ends(fewer, at);
            assert forall|i: int| 0 <= i < items.len() && i != at implies
                #[trigger] with_thinking_ended(items)[i] == items[i] by {
                if i < fewer.len() {
                    assert(with_thinking_ended(fewer)[i] == fewer[i]);
                }
            }
        }
    }
}

/// Where all tools come to rest, each tool block keeps all that it shows, and every other
/// item stays as it is.
pub proof fn tools_come_to_rest(items: Seq<ItemView>, i: int)
    requires
        0 <= i < items.len(),
    ensures
        with_tools_stopped(items).len() == items.len(),
        match items[i] {
            ItemView::ToolBlock { index, name, args_summary, output, .. } => with_tools_stopped(
                items,
            )[i] == (ItemView::ToolBlock { index, name, args_summary, output, is_running: false }),
            _ => with_tools_stopped(items)[i] == items[i],
        },
{
}

/// The last block with an index is found, and the last block of all.
pub proof fn the_last_blocks_are_found(items: Seq<ItemView>, index: usize)
    ensures
        is_last(items, last_tool_at(items, index), |item: ItemView| has_index(item, index)),
        is_last(items, last_block_at(items), |item: ItemView| item is ToolBlock),
    decreases items.len(),
{
    let kind = |item: ItemView| has_index(item, index);
    let block = |item: ItemView| item is ToolBlock;
    if items.len() > 0 {
        let fewer = items.drop_last();
        the_last_blocks_are_found(fewer, index);
        let at = last_tool_at(items, index);
        let last = last_block_at(items);
        if at >= 0 && at < fewer.len() {
            assert(kind(fewer[at]));
            assert(kind(items[at]));
        }
        if last >= 0 && last < fewer.len() {
            assert(block(fewer[last]));
            assert(block(items[last]));
        }
        assert forall|i: int| 0 <= i < items.len() && at < i implies !kind(
            #[trigger] items[i],
        ) by {
            if i < fewer.len() {
                assert(!kind(fewer[i]));
            }
        }
        assert forall|i: int| 0 <= i < items.len() && last < i implies !block(
            #[trigger] items[i],
        ) by {
            if i < fewer.len() {
                assert(!block(fewer[i]));
            }
        }
    }
}

/// A result goes to the last block with its index: the block shows it, in full and in
/// place of what it showed before, and rests. Every other item stays as it is, and where
/// there is no such block all do.
pub proof fn results_go_to_the_last_block(
    items: Seq<ItemView>,
    wanted: usize,
    result: Seq<char>,
    at: int,
)
    requires
        is_last(items, at, |item: ItemView| has_index(item, wanted)),
    ensures
        only_one_differs(items, with_tool_result(items, wanted, result), at),
        at >= 0 ==> (items[at] matches ItemView::ToolBlock { index, name, args_summary, .. }
            && with_tool_result(items, wanted, result)[at] == (ItemView::ToolBlock {
            index,
            name,
            args_summary,
            output: result,
            is_running: false,
        })),
{
    lemma_last_tool_is(items, wanted, at);
}

proof fn lemma_last_tool_is(items: Seq<ItemView>, wanted: usize, at: int)
    requires
        is_last(items, at, |item: ItemView| has_index(item, wanted)),
    ensures
        at >= 0 ==> last_tool_at(items, wanted) == at && items[at] is ToolBlock,
        at < 0 ==> last_tool_at(items, wanted) < 0,
        last_tool_at(items, wanted) < items.len(),
{
    let kind = |item: ItemView| has_index(item, wanted);
    the_last_blocks_are_found(items, wanted);
    let found = last_tool_at(items, wanted);
    if at >= 0 {
        assert(kind(items[at]));
    }
    if found >= 0 {
        assert(kind(items[found]));
    }
    if found < at && at >= 0 {
        assert(!kind(items[at]));
    }
    if at < found && found >= 0 {
        assert(!kind(items[found]));
    }
}

/// Arguments go to the last block with their index, which keeps its name and its output
/// and is the only block that runs. Every other item shows what it showed.
pub proof fn arguments_go_to_the_last_block(
    items: Seq<ItemView>,
    wanted: usize,
    args: Seq<char>,
    at: int,
)
    requires
        is_last(items, at, |item: ItemView| has_index(item, wanted)),
    ensures
        only_one_differs(with_tools_stopped(items), with_tool_args(items, wanted, args), at),
        at >= 0 ==> (items[at] matches ItemView::ToolBlock { index, name, output, .. }
            && with_tool_args(items, wanted, args)[at] == (ItemView::ToolBlock {
            index,
            name,
            args_summary: Some(args),
            output,
            is_running: true,
        })),
{
    lemma_last_tool_is(items, wanted, at);
    if at >= 0 {
        tools_come_to_rest(items, at);
    }
}

/// A tool call that begins gets a block of its own at the end, which runs and shows no
/// arguments and no output yet. All other tools rest, and the last thinking has ended.
pub proof fn calls_get_their_own_block(items: Seq<ItemView>, index: usize, name: Seq<char>)
    ensures
        with_tool_begun(items, index, name).drop_last() == with_tools_stopped(
            with_thinking_ended(items),
        ),
        with_tool_begun(items, index, name).last() == (ItemView::ToolBlock {
            index,
            name,
            args_summary: None,
            output: Seq::empty(),
            is_running: true,
        }),
{
    assert(with_tool_begun(items, index, name).drop_last() =~= with_tools_stopped(
        with_thinking_ended(items),
    ));
}

/// A piece of text goes behind the text that stands last, a piece of thinking behind the
/// thinking that does. Where something else stands last, nothing changes.
pub proof fn pieces_go_behind_what_stands_last(v: AppView, delta: Seq<char>)
    ensures
        ({
            let texts = after_display(v, DisplayEventView::TextDelta(delta));
            let thoughts = after_display(v, DisplayEventView::ThinkingDelta(delta));
            let n = v.items.len() - 1;
            &&& texts == (AppView { items: texts.items, ..v })
            &&& thoughts == (AppView { items: thoughts.items, ..v })
            &&& only_one_differs(v.items, texts.items, n)
            &&& only_one_differs(v.items, thoughts.items, n)
            &&& n >= 0 ==> match v.items[n] {
                ItemView::AssistantText(text) => texts.items[n] == ItemView::AssistantText(
                    text + delta,
                ),
                _ => texts.items[n] == v.items[n],
            }
            &&& n >= 0 ==> match v.items[n] {
                ItemView::Thinking { text, is_running } => thoughts.items[n]
                    == (ItemView::Thinking { text: text + delta, is_running }),
                _ => thoughts.items[n] == v.items[n],
            }
        }),
{
}

/// Each event changes only what it is about. Those that start something put an item at the
/// end, and where a text, an error or the end of the turn comes, the last thinking ends.
pub proof fn events_change_what_they_are_about(v: AppView, event: DisplayEventView)
    ensures
        ({
            let w = after_display(v, event);
            &&& event matches DisplayEventView::PluginsLoaded { count } ==> w == (AppView {
                plugin_count: count,
                ..v
            })
            &&& event is ThinkingStart ==> w == (AppView {
                items: v.items + seq![
                    ItemView::Thinking { text: Seq::empty(), is_running: true },
                ],
                ..v
            })
            &&& event is TextStart ==> w == (AppView {
                items: with_thinking_ended(v.items) + seq![ItemView::AssistantText(Seq::empty())],
                ..v
            })
            &&& event matches DisplayEventView::Error(text) ==> w == (AppView {
                items: with_thinking_ended(v.items) + seq![ItemView::Error(text)],
                ..v
            })
            &&& event matches DisplayEventView::ResponseMeta { tokens, elapsed_secs, tok_per_sec }
                ==> w == (AppView {
                items: v.items + seq![ItemView::ResponseMeta { tokens, elapsed_secs, tok_per_sec }],
                ..v
            })
            &&& event matches DisplayEventView::TokenUsage { context, output } ==> {
                &&& w == (AppView {
                    context_tokens: context,
                    total_output_tokens: w.total_output_tokens,
                    ..v
                })
                &&& v.total_output_tokens + output <= u64::MAX ==> w.total_output_tokens
                    == v.total_output_tokens + output
            }
            &&& event is ToolCallBegin || event is ToolCallArgs || event is ToolResult ==> w == (
            AppView { items: w.items, ..v })
            &&& event is Done ==> w == (AppView {
                items: with_thinking_ended(v.items),
                busy: false,
                busy_since: None,
                pending_cancel: false,
                esc_press_time: None,
                ..v
            })
        }),
{
    let w = after_display(v, event);
    if event is ThinkingStart {
        assert(w.items =~= v.items + seq![
            ItemView::Thinking { text: Seq::empty(), is_running: true },
        ]);
    }
    if event is TextStart {
        assert(w.items =~= with_thinking_ended(v.items) + seq![
            ItemView::AssistantText(Seq::empty()),
        ]);
    }
    if let DisplayEventView::Error(text) = event {
        assert(w.items =~= with_thinking_ended(v.items) + seq![ItemView::Error(text)]);
    }
    if let DisplayEventView::ResponseMeta { tokens, elapsed_secs, tok_per_sec } = event {
        assert(w.items =~= v.items + seq![
            ItemView::ResponseMeta { tokens, elapsed_secs, tok_per_sec },
        ]);
    }
}

/// A result that the agent tells goes to the block that stands last, and is shown nowhere
/// where there is none.
pub proof fn told_results_go_to_the_last_block(v: AppView, output: Seq<char>, at: int)
    requires
        is_last(v.items, at, |item: ItemView| item is ToolBlock),
    ensures
        ({
            let w = after_agent_event(v, UiEventView::ToolResult { output_summary: output });
            &&& w == (AppView { items: w.items, ..v })
            &&& only_one_differs(v.items, w.items, at)
            &&& at >= 0 ==> (v.items[at] matches ItemView::ToolBlock {
                index,
                name,
                args_summary,
                ..
            } && w.items[at] == (ItemView::ToolBlock {
                index,
                name,
                args_summary,
                output,
                is_running: false,
            }))
        }),
{
    let block = |item: ItemView| item is ToolBlock;
    the_last_blocks_are_found(v.items, 0);
    let found = last_block_at(v.items);
    if at >= 0 {
        assert(block(v.items[at]));
    }
    if found >= 0 {
        assert(block(v.items[found]));
    }
    if found < at && at >= 0 {
        assert(!block(v.items[at]));
    }
    if at < found && found >= 0 {
        assert(!block(v.items[found]));
    }
    if at >= 0 {
        assert(found == at);
        if let ItemView::ToolBlock { index, .. } = v.items[at] {
            let kind = |item: ItemView| has_index(item, index);
            assert(kind(v.items[at]));
            assert forall|i: int| 0 <= i < v.items.len() && at < i implies !kind(
                #[trigger] v.items[i],
            ) by {
                assert(!block(v.items[i]));
            }
            results_go_to_the_last_block(v.items, index, output, at);
        }
    }
}

/// All other events that the agent tells are displayed as they are.
pub proof fn told_events_are_displayed(v: AppView, event: UiEventView)
    ensures
        match event {
            UiEventView::PluginsLoaded { count } => after_agent_event(v, event) == after_display(
                v,
                DisplayEventView::PluginsLoaded { count },
            ),
            UiEventView::ThinkingStart => after_agent_event(v, event) == after_display(
                v,
                DisplayEventView::ThinkingStart,
            ),
            UiEventView::ThinkingDelta(text) => after_agent_event(v, event) == after_display(
                v,
                DisplayEventView::ThinkingDelta(text),
            ),
            UiEventView::TextStart => after_agent_event(v, event) == after_display(
                v,
                DisplayEventView::TextStart,
            ),
            UiEventView::TextDelta(text) => after_agent_event(v, event) == after_display(
                v,
                DisplayEventView::TextDelta(text),
            ),
            UiEventView::TokenUsage { context, output } => after_agent_event(v, event)
                == after_display(v, DisplayEventView::TokenUsage { context, output }),
            UiEventView::ResponseMeta { tokens, elapsed_secs, tok_per_sec } => after_agent_event(
                v,
                event,
            ) == after_display(
                v,
                DisplayEventView::ResponseMeta { tokens, elapsed_secs, tok_per_sec },
            ),
            UiEventView::Error(text) => after_agent_event(v, event) == after_display(
                v,
                DisplayEventView::Error(text),
            ),
            UiEventView::Done => after_agent_event(v, event) == after_display(
                v,
                DisplayEventView::Done,
            ),
            UiEventView::ToolCall { .. } | UiEventView::ToolResult { .. } => true,
        },
{
}

} // verus!
