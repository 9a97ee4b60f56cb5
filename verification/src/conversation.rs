//! The conversation that the interface shows, and how events change it.

use vstd::prelude::*;
use crate::api::opt_view;
use crate::text::views;

verus! {

broadcast use vstd::seq::group_seq_axioms;

/// Something in the conversation. The times of `ResponseMeta` are decimal numbers.
#[derive(Debug)]
pub enum ConversationItem {
    UserMessage { text: String, images: Vec<String> },
    Thinking { text: String, is_running: bool },
    AssistantText(String),
    ResponseMeta { tokens: u64, elapsed_secs: String, tok_per_sec: String },
    ToolBlock {
        index: usize,
        name: String,
        args_summary: Option<String>,
        output: String,
        is_running: bool,
    },
    Error(String),
}

pub enum ItemView {
    UserMessage { text: Seq<char>, images: Seq<Seq<char>> },
    Thinking { text: Seq<char>, is_running: bool },
    AssistantText(Seq<char>),
    ResponseMeta { tokens: u64, elapsed_secs: Seq<char>, tok_per_sec: Seq<char> },
    ToolBlock {
        index: usize,
        name: Seq<char>,
        args_summary: Option<Seq<char>>,
        output: Seq<char>,
        is_running: bool,
    },
    Error(Seq<char>),
}

impl View for ConversationItem {
    type V = ItemView;

    open spec fn view(&self) -> ItemView {
        match *self {
            ConversationItem::UserMessage { text, images } => ItemView::UserMessage {
                text: text@,
                images: views(images@),
            },
            ConversationItem::Thinking { text, is_running } => ItemView::Thinking {
                text: text@,
                is_running,
            },
            ConversationItem::AssistantText(text) => ItemView::AssistantText(text@),
            ConversationItem::ResponseMeta { tokens, elapsed_secs, tok_per_sec } =>
                ItemView::ResponseMeta {
                tokens,
                elapsed_secs: elapsed_secs@,
                tok_per_sec: tok_per_sec@,
            },
            ConversationItem::ToolBlock { index, name, args_summary, output, is_running } =>
                ItemView::ToolBlock {
                index,
                name: name@,
                args_summary: opt_view(args_summary),
                output: output@,
                is_running,
            },
            ConversationItem::Error(text) => ItemView::Error(text@),
        }
    }
}

/// The views of some items.
pub open spec fn items_view(items: Seq<ConversationItem>) -> Seq<ItemView> {
    items.map_values(|item: ConversationItem| item@)
}

/// An item whose thinking is over.
pub open spec fn thought(item: ItemView) -> ItemView {
    match item {
        ItemView::Thinking { text, is_running } => ItemView::Thinking { text, is_running: false },
        _ => item,
    }
}

/// The last thinking is over, if there is any.
pub open spec fn with_thinking_ended(items: Seq<ItemView>) -> Seq<ItemView>
    decreases items.len(),
{
    if items.len() == 0 {
        items
    } else if items.last() is Thinking {
        items.drop_last().push(thought(items.last()))
    } else {
        with_thinking_ended(items.drop_last()).push(items.last())
    }
}

/// A thinking item takes more text; another item stays as it is.
pub open spec fn more_thinking(item: ItemView, delta: Seq<char>) -> ItemView {
    match item {
        ItemView::Thinking { text, is_running } => ItemView::Thinking {
            text: text + delta,
            is_running,
        },
        _ => item,
    }
}

/// An assistant text takes more text; another item stays as it is.
pub open spec fn more_text(item: ItemView, delta: Seq<char>) -> ItemView {
    match item {
        ItemView::AssistantText(text) => ItemView::AssistantText(text + delta),
        _ => item,
    }
}

/// A tool block at rest; another item stays as it is.
pub open spec fn stopped(item: ItemView) -> ItemView {
    match item {
        ItemView::ToolBlock { index, name, args_summary, output, is_running } =>
            ItemView::ToolBlock { index, name, args_summary, output, is_running: false },
        _ => item,
    }
}

/// All tool blocks are at rest.
pub open spec fn with_tools_stopped(items: Seq<ItemView>) -> Seq<ItemView> {
    items.map_values(|item: ItemView| stopped(item))
}

/// Whether an item is the tool block with an index.
pub open spec fn is_tool(item: ItemView, index: usize) -> bool {
    item matches ItemView::ToolBlock { index: i, .. } && i == index
}

/// Where the last tool block with an index stands, or -1.
pub open spec fn last_tool_at(items: Seq<ItemView>, index: usize) -> int
    decreases items.len(),
{
    if items.len() == 0 {
        -1
    } else if is_tool(items.last(), index) {
        items.len() - 1
    } else {
        last_tool_at(items.drop_last(), index)
    }
}

/// Where the last tool block of all stands, or -1.
pub open spec fn last_block_at(items: Seq<ItemView>) -> int
    decreases items.len(),
{
    if items.len() == 0 {
        -1
    } else if items.last() is ToolBlock {
        items.len() - 1
    } else {
        last_block_at(items.drop_last())
    }
}

/// A running tool block with its arguments; another item stays as it is.
pub open spec fn given_args(item: ItemView, args: Seq<char>) -> ItemView {
    match item {
        ItemView::ToolBlock { index, name, args_summary, output, is_running } =>
            ItemView::ToolBlock { index, name, args_summary: Some(args), output, is_running: true },
        _ => item,
    }
}

/// A tool block at rest with its output; another item stays as it is.
pub open spec fn given_output(item: ItemView, result: Seq<char>) -> ItemView {
    match item {
        ItemView::ToolBlock { index, name, args_summary, output, is_running } =>
            ItemView::ToolBlock { index, name, args_summary, output: result, is_running: false },
        _ => item,
    }
}

/// A tool call begins: it alone is running, and what was thought is thought.
pub open spec fn with_tool_begun(items: Seq<ItemView>, index: usize, name: Seq<char>) -> Seq<
    ItemView,
> {
    with_tools_stopped(with_thinking_ended(items)).push(
        ItemView::ToolBlock {
            index,
            name,
            args_summary: None,
            output: Seq::empty(),
            is_running: true,
        },
    )
}

/// The arguments of a tool call are known: it alone is running.
pub open spec fn with_tool_args(items: Seq<ItemView>, index: usize, args: Seq<char>) -> Seq<
    ItemView,
> {
    let at = last_tool_at(items, index);
    let rest = with_tools_stopped(items);
    if at < 0 {
        rest
    } else {
        rest.update(at, given_args(rest[at], args))
    }
}

/// The result of a tool call is known.
pub open spec fn with_tool_result(items: Seq<ItemView>, index: usize, result: Seq<char>) -> Seq<
    ItemView,
> {
    let at = last_tool_at(items, index);
    if at < 0 {
        items
    } else {
        items.update(at, given_output(items[at], result))
    }
}

/// The last item takes more thinking.
pub open spec fn with_more_thinking(items: Seq<ItemView>, delta: Seq<char>) -> Seq<ItemView> {
    if items.len() == 0 {
        items
    } else {
        items.drop_last().push(more_thinking(items.last(), delta))
    }
}

/// The last item takes more text.
pub open spec fn with_more_text(items: Seq<ItemView>, delta: Seq<char>) -> Seq<ItemView> {
    if items.len() == 0 {
        items
    } else {
        items.drop_last().push(more_text(items.last(), delta))
    }
}

/// Adds an item.
pub fn push_item(items: &mut Vec<ConversationItem>, item: ConversationItem)
    ensures
        items_view(final(items)@) == items_view(old(items)@).push(item@),
{
    items.push(item);
    assert(items_view(items@) =~= items_view(old(items)@).push(item@));
}

/// Replaces an item.
fn set_item(items: &mut Vec<ConversationItem>, at: usize, item: ConversationItem)
    requires
        at < old(items)@.len(),
    ensures
        items_view(final(items)@) == items_view(old(items)@).update(at as int, item@),
{
    items.set(at, item);
    assert(items_view(items@) =~= items_view(old(items)@).update(at as int, item@));
}

/// Ends the last thinking, if there is any.
pub fn end_active_thinking(items: &mut Vec<ConversationItem>)
    ensures
        items_view(final(items)@) == with_thinking_ended(items_view(old(items)@)),
{
    let ghost all = items_view(items@);
    let mut i: usize = items.len();
    assert(all.take(i as int) =~= all);
    assert(all.skip(i as int) =~= Seq::empty());
    assert(with_thinking_ended(all) + Seq::<ItemView>::empty() =~= with_thinking_ended(all));
    while i > 0
        invariant
            i <= items@.len(),
            items@ == old(items)@,
            all == items_view(items@),
            with_thinking_ended(all) == with_thinking_ended(all.take(i as int)) + all.skip(
                i as int,
            ),
        decreases i,
    {
        let ghost part = all.take(i as int);
        assert(part.last() == items@[i - 1]@);
        assert(part.drop_last() =~= all.take(i - 1));
        if let ConversationItem::Thinking { text, .. } = &items[i - 1] {
            let ended = ConversationItem::Thinking { text: text.clone(), is_running: false };
            set_item(items, i - 1, ended);
            assert(items_view(items@) =~= with_thinking_ended(part) + all.skip(i as int));
            return ;
        }
        proof {
            assert(with_thinking_ended(part) + all.skip(i as int) =~= with_thinking_ended(
                all.take(i - 1),
            ) + all.skip(i - 1));
        }
        i = i - 1;
    }
    assert(with_thinking_ended(all.take(0)) + all.skip(0) =~= all);
}

/// Adds to the thinking that stands last.
pub fn add_thinking(items: &mut Vec<ConversationItem>, delta: &str)
    ensures
        items_view(final(items)@) == with_more_thinking(items_view(old(items)@), delta@),
{
    let n = items.len();
    if n == 0 {
        return ;
    }
    let ghost all = items_view(items@);
    assert(all.last() == items@[n - 1]@);
    if let ConversationItem::Thinking { text, is_running } = &items[n - 1] {
        let mut text = text.clone();
        text.append(delta);
        let is_running = *is_running;
        set_item(items, n - 1, ConversationItem::Thinking { text, is_running });
    }
    assert(items_view(items@) =~= with_more_thinking(all, delta@));
}

/// Adds to the assistant text that stands last.
pub fn add_text(items: &mut Vec<ConversationItem>, delta: &str)
    ensures
        items_view(final(items)@) == with_more_text(items_view(old(items)@), delta@),
{
    let n = items.len();
    if n == 0 {
        return ;
    }
    let ghost all = items_view(items@);
    assert(all.last() == items@[n - 1]@);
    if let ConversationItem::AssistantText(text) = &items[n - 1] {
        let mut text = text.clone();
        text.append(delta);
        set_item(items, n - 1, ConversationItem::AssistantText(text));
    }
    assert(items_view(items@) =~= with_more_text(all, delta@));
}

fn clone_summary(args_summary: &Option<String>) -> (r: Option<String>)
    ensures
        opt_view(r) == opt_view(*args_summary),
{
    match args_summary {
        Some(args) => Some(args.clone()),
        None => None,
    }
}

/// Lets all tool blocks rest.
fn stop_tools(items: &mut Vec<ConversationItem>)
    ensures
        items_view(final(items)@) == with_tools_stopped(items_view(old(items)@)),
{
    let ghost all = items_view(items@);
    let ghost rest = with_tools_stopped(all);
    let mut i: usize = 0;
    while i < items.len()
        invariant
            i <= items@.len(),
            items@.len() == all.len(),
            all == items_view(old(items)@),
            rest == with_tools_stopped(all),
            items_view(items@) =~= rest.take(i as int) + all.skip(i as int),
        decreases items@.len() - i,
    {
        let ghost before = items_view(items@);
        assert(before[i as int] == all[i as int]);
        assert(items@[i as int]@ == before[i as int]);
        if let ConversationItem::ToolBlock { index, name, args_summary, output, .. } = &items[i] {
            let block = ConversationItem::ToolBlock {
                index: *index,
                name: name.clone(),
                args_summary: clone_summary(args_summary),
                output: output.clone(),
                is_running: false,
            };
            set_item(items, i, block);
        }
        assert(items_view(items@) =~= before.update(i as int, rest[i as int]));
        i = i + 1;
    }
    assert(items_view(items@) =~= rest);
}

/// Where the last tool block with an index stands.
fn find_tool(items: &Vec<ConversationItem>, wanted: usize) -> (r: Option<usize>)
    ensures
        match r {
            Some(at) => at == last_tool_at(items_view(items@), wanted) && at < items@.len()
                && items@[at as int] is ToolBlock,
            None => last_tool_at(items_view(items@), wanted) < 0,
        },
{
    let ghost all = items_view(items@);
    let mut i: usize = items.len();
    assert(all.take(i as int) =~= all);
    while i > 0
        invariant
            i <= items@.len(),
            all == items_view(items@),
            last_tool_at(all, wanted) == last_tool_at(all.take(i as int), wanted),
        decreases i,
    {
        let ghost part = all.take(i as int);
        assert(part.last() == items@[i - 1]@);
        assert(part.drop_last() =~= all.take(i - 1));
        if let ConversationItem::ToolBlock { index, .. } = &items[i - 1] {
            if *index == wanted {
                return Some(i - 1);
            }
        }
        i = i - 1;
    }
    None
}

/// The index of the last tool block of all.
pub fn last_tool_index(items: &Vec<ConversationItem>) -> (r: Option<usize>)
    ensures
        match r {
            Some(index) => last_block_at(items_view(items@)) >= 0 && is_tool(
                items_view(items@)[last_block_at(items_view(items@))],
                index,
            ),
            None => last_block_at(items_view(items@)) < 0,
        },
{
    let ghost all = items_view(items@);
    let mut i: usize = items.len();
    assert(all.take(i as int) =~= all);
    while i > 0
        invariant
            i <= items@.len(),
            all == items_view(items@),
            last_block_at(all) == last_block_at(all.take(i as int)),
        decreases i,
    {
        let ghost part = all.take(i as int);
        assert(part.last() == items@[i - 1]@);
        assert(part.drop_last() =~= all.take(i - 1));
        if let ConversationItem::ToolBlock { index, .. } = &items[i - 1] {
            assert(all[i - 1] == items@[i - 1]@);
            return Some(*index);
        }
        i = i - 1;
    }
    None
}

/// Begins a tool call.
pub fn begin_tool(items: &mut Vec<ConversationItem>, index: usize, name: String)
    ensures
        items_view(final(items)@) == with_tool_begun(items_view(old(items)@), index, name@),
{
    end_active_thinking(items);
    stop_tools(items);
    let output = String::new();
    assert(output@ =~= Seq::empty());
    push_item(
        items,
        ConversationItem::ToolBlock { index, name, args_summary: None, output, is_running: true },
    );
}

/// Notes the arguments of a tool call.
pub fn note_tool_args(items: &mut Vec<ConversationItem>, index: usize, args: String)
    ensures
        items_view(final(items)@) == with_tool_args(items_view(old(items)@), index, args@),
{
    let target = find_tool(items, index);
    let ghost all = items_view(items@);
    stop_tools(items);
    assert(items_view(items@).len() == all.len());
    if let Some(at) = target {
        assert(items_view(items@)[at as int] == stopped(all[at as int]));
        assert(all[at as int] == old(items)@[at as int]@);
        assert(items_view(items@)[at as int] == items@[at as int]@);
        if let ConversationItem::ToolBlock { index, name, output, .. } = &items[at] {
            let block = ConversationItem::ToolBlock {
                index: *index,
                name: name.clone(),
                args_summary: Some(args),
                output: output.clone(),
                is_running: true,
            };
            set_item(items, at, block);
        }
    }
}

/// Notes the result of a tool call.
pub fn note_tool_result(items: &mut Vec<ConversationItem>, index: usize, result: String)
    ensures
        items_view(final(items)@) == with_tool_result(items_view(old(items)@), index, result@),
{
    let target = find_tool(items, index);
    if let Some(at) = target {
        assert(items_view(items@)[at as int] == items@[at as int]@);
        if let ConversationItem::ToolBlock { index, name, args_summary, .. } = &items[at] {
            let block = ConversationItem::ToolBlock {
                index: *index,
                name: name.clone(),
                args_summary: clone_summary(args_summary),
                output: result,
                is_running: false,
            };
            set_item(items, at, block);
        }
    }
}

} // verus!
