//! The terminal interface's state: what is typed, what is shown, and how keys, pasted
//! text and the agent's events change it. Times are milliseconds on one clock.

use vstd::prelude::*;
use crate::agent::{UiEvent, UiEventView};
use crate::base64::{base64, base64_encode};
use crate::conversation::{
    add_text, add_thinking, begin_tool, end_active_thinking, items_view, last_block_at,
    last_tool_index, note_tool_args, note_tool_result, push_item, with_more_text,
    with_more_thinking, with_thinking_ended, with_tool_args, with_tool_begun, with_tool_result,
    ConversationItem, ItemView,
};
use crate::image::{
    is_image_file, media_type, media_type_for_path, names_image, pasted_path, path_in,
};
use crate::text::{
    chars_of, is_white_space, string_of, trim_end_index, trimmed_end, views, white_space,
};

pub mod render;

verus! {

broadcast use vstd::seq::group_seq_axioms;

/// How long the first Esc waits for the second.
pub const CANCEL_WINDOW_MS: u64 = 2000;

/// How large an attached image may be.
pub const MAX_IMAGE_BYTES: usize = 20_971_520;

/// What the interface shows as it comes in, with the tool calls numbered.
#[derive(Debug)]
pub enum DisplayEvent {
    PluginsLoaded { count: usize },
    ThinkingStart,
    ThinkingDelta(String),
    TextStart,
    TextDelta(String),
    ToolCallBegin { index: usize, name: String },
    ToolCallArgs { index: usize, args_summary: String },
    ToolResult { index: usize, output_summary: String },
    TokenUsage { context: u64, output: u64 },
    ResponseMeta { tokens: u64, elapsed_secs: String, tok_per_sec: String },
    Error(String),
    Done,
}

pub enum DisplayEventView {
    PluginsLoaded { count: nat },
    ThinkingStart,
    ThinkingDelta(Seq<char>),
    TextStart,
    TextDelta(Seq<char>),
    ToolCallBegin { index: usize, name: Seq<char> },
    ToolCallArgs { index: usize, args_summary: Seq<char> },
    ToolResult { index: usize, output_summary: Seq<char> },
    TokenUsage { context: u64, output: u64 },
    ResponseMeta { tokens: u64, elapsed_secs: Seq<char>, tok_per_sec: Seq<char> },
    Error(Seq<char>),
    Done,
}

impl View for DisplayEvent {
    type V = DisplayEventView;

    open spec fn view(&self) -> DisplayEventView {
        match *self {
            DisplayEvent::PluginsLoaded { count } => DisplayEventView::PluginsLoaded {
                count: count as nat,
            },
            DisplayEvent::ThinkingStart => DisplayEventView::ThinkingStart,
            DisplayEvent::ThinkingDelta(text) => DisplayEventView::ThinkingDelta(text@),
            DisplayEvent::TextStart => DisplayEventView::TextStart,
            DisplayEvent::TextDelta(text) => DisplayEventView::TextDelta(text@),
            DisplayEvent::ToolCallBegin { index, name } => DisplayEventView::ToolCallBegin {
                index,
                name: name@,
            },
            DisplayEvent::ToolCallArgs { index, args_summary } => DisplayEventView::ToolCallArgs {
                index,
                args_summary: args_summary@,
            },
            DisplayEvent::ToolResult { index, output_summary } => DisplayEventView::ToolResult {
                index,
                output_summary: output_summary@,
            },
            DisplayEvent::TokenUsage { context, output } => DisplayEventView::TokenUsage {
                context,
                output,
            },
            DisplayEvent::ResponseMeta { tokens, elapsed_secs, tok_per_sec } =>
                DisplayEventView::ResponseMeta {
                tokens,
                elapsed_secs: elapsed_secs@,
                tok_per_sec: tok_per_sec@,
            },
            DisplayEvent::Error(text) => DisplayEventView::Error(text@),
            DisplayEvent::Done => DisplayEventView::Done,
        }
    }
}

/// A key of the keyboard, as far as the interface knows it.
#[derive(Debug, Clone, Copy, PartialEq, Eq, Structural)]
pub enum KeyCode {
    Char(char),
    Enter,
    Backspace,
    Delete,
    Left,
    Right,
    Home,
    End,
    Up,
    Down,
    PageUp,
    PageDown,
    Esc,
    Other,
}

/// A key event.
#[derive(Debug, Clone, Copy, PartialEq, Eq, Structural)]
pub struct Key {
    pub code: KeyCode,
    pub ctrl: bool,
    pub shift: bool,
    pub alt: bool,
    /// Whether the key goes down; else it repeats or goes up.
    pub pressed: bool,
}

/// An image that goes with the next message.
#[derive(Debug)]
pub struct ImageAttachment {
    pub filename: String,
    pub base64_data: String,
    pub media_type: String,
}

pub struct ImageView {
    pub filename: Seq<char>,
    pub base64_data: Seq<char>,
    pub media_type: Seq<char>,
}

impl View for ImageAttachment {
    type V = ImageView;

    open spec fn view(&self) -> ImageView {
        ImageView {
            filename: self.filename@,
            base64_data: self.base64_data@,
            media_type: self.media_type@,
        }
    }
}

/// The views of some images.
pub open spec fn images_view(images: Seq<ImageAttachment>) -> Seq<ImageView> {
    images.map_values(|image: ImageAttachment| image@)
}

/// The file names of some images.
pub open spec fn image_names(images: Seq<ImageView>) -> Seq<Seq<char>> {
    images.map_values(|image: ImageView| image.filename)
}

/// What a key asks for beyond the interface.
#[derive(Debug)]
pub enum KeyOutcome {
    Continue,
    Quit,
    /// Send a message.
    Submit { text: String, images: Vec<ImageAttachment> },
    /// Cancel the request that is under way.
    Cancel,
}

pub enum KeyOutcomeView {
    Continue,
    Quit,
    Submit { text: Seq<char>, images: Seq<ImageView> },
    Cancel,
}

impl View for KeyOutcome {
    type V = KeyOutcomeView;

    open spec fn view(&self) -> KeyOutcomeView {
        match *self {
            KeyOutcome::Continue => KeyOutcomeView::Continue,
            KeyOutcome::Quit => KeyOutcomeView::Quit,
            KeyOutcome::Submit { text, images } => KeyOutcomeView::Submit {
                text: text@,
                images: images_view(images@),
            },
            KeyOutcome::Cancel => KeyOutcomeView::Cancel,
        }
    }
}

/// What became of a pasted text.
#[derive(Debug)]
pub enum PasteStep {
    /// Nothing: the agent is busy.
    Ignored,
    /// It was inserted.
    Inserted,
    /// It names an image at this path. Where a file is there, it is to be attached; else
    /// the text is to be inserted after all.
    Image(String),
}

pub enum PasteStepView {
    Ignored,
    Inserted,
    Image(Seq<char>),
}

impl View for PasteStep {
    type V = PasteStepView;

    open spec fn view(&self) -> PasteStepView {
        match *self {
            PasteStep::Ignored => PasteStepView::Ignored,
            PasteStep::Inserted => PasteStepView::Inserted,
            PasteStep::Image(path) => PasteStepView::Image(path@),
        }
    }
}

/// The interface's state.
pub struct AppView {
    pub items: Seq<ItemView>,
    pub input: Seq<char>,
    /// How many characters of the input stand before the cursor.
    pub cursor: nat,
    pub scroll_offset: nat,
    pub auto_scroll: bool,
    pub busy: bool,
    pub busy_since: Option<u64>,
    pub model: Seq<char>,
    pub context_limit: u64,
    pub context_tokens: u64,
    pub total_output_tokens: u64,
    pub plugin_count: nat,
    /// Whether Esc was pressed once.
    pub pending_cancel: bool,
    pub esc_press_time: Option<u64>,
    pub pending_images: Seq<ImageView>,
}

/// The state after an event.
pub open spec fn after_display(v: AppView, event: DisplayEventView) -> AppView {
    match event {
        DisplayEventView::PluginsLoaded { count } => AppView { plugin_count: count, ..v },
        DisplayEventView::ThinkingStart => AppView {
            items: v.items.push(ItemView::Thinking { text: Seq::empty(), is_running: true }),
            ..v
        },
        DisplayEventView::ThinkingDelta(text) => AppView {
            items: with_more_thinking(v.items, text),
            ..v
        },
        DisplayEventView::TextStart => AppView {
            items: with_thinking_ended(v.items).push(ItemView::AssistantText(Seq::empty())),
            ..v
        },
        DisplayEventView::TextDelta(text) => AppView { items: with_more_text(v.items, text), ..v },
        DisplayEventView::ToolCallBegin { index, name } => AppView {
            items: with_tool_begun(v.items, index, name),
            ..v
        },
        DisplayEventView::ToolCallArgs { index, args_summary } => AppView {
            items: with_tool_args(v.items, index, args_summary),
            ..v
        },
        DisplayEventView::ToolResult { index, output_summary } => AppView {
            items: with_tool_result(v.items, index, output_summary),
            ..v
        },
        DisplayEventView::TokenUsage { context, output } => AppView {
            context_tokens: context,
            total_output_tokens: (v.total_output_tokens + output) as u64,
            ..v
        },
        DisplayEventView::ResponseMeta { tokens, elapsed_secs, tok_per_sec } => AppView {
            items: v.items.push(ItemView::ResponseMeta { tokens, elapsed_secs, tok_per_sec }),
            ..v
        },
        DisplayEventView::Error(text) => AppView {
            items: with_thinking_ended(v.items).push(ItemView::Error(text)),
            ..v
        },
        DisplayEventView::Done => AppView {
            items: with_thinking_ended(v.items),
            busy: false,
            busy_since: None,
            pending_cancel: false,
            esc_press_time: None,
            ..v
        },
    }
}

/// The index of the last tool block.
pub open spec fn last_index(v: AppView) -> usize {
    match v.items[last_block_at(v.items)] {
        ItemView::ToolBlock { index, .. } => index,
        _ => 0,
    }
}

/// The state after an event of the agent. A tool call gets a block of its own, and a
/// result goes to the last block.
pub open spec fn after_agent_event(v: AppView, event: UiEventView) -> AppView {
    match event {
        UiEventView::PluginsLoaded { count } => after_display(
            v,
            DisplayEventView::PluginsLoaded { count },
        ),
        UiEventView::ThinkingStart => after_display(v, DisplayEventView::ThinkingStart),
        UiEventView::ThinkingDelta(text) => after_display(
            v,
            DisplayEventView::ThinkingDelta(text),
        ),
        UiEventView::TextStart => after_display(v, DisplayEventView::TextStart),
        UiEventView::TextDelta(text) => after_display(v, DisplayEventView::TextDelta(text)),
        UiEventView::ToolCall { name, args_summary } => after_display(
            after_display(
                v,
                DisplayEventView::ToolCallBegin { index: v.items.len() as usize, name },
            ),
            DisplayEventView::ToolCallArgs { index: v.items.len() as usize, args_summary },
        ),
        UiEventView::ToolResult { output_summary } => if last_block_at(v.items) < 0 {
            v
        } else {
            after_display(
                v,
                DisplayEventView::ToolResult { index: last_index(v), output_summary },
            )
        },
        UiEventView::TokenUsage { context, output } => after_display(
            v,
            DisplayEventView::TokenUsage { context, output },
        ),
        UiEventView::ResponseMeta { tokens, elapsed_secs, tok_per_sec } => after_display(
            v,
            DisplayEventView::ResponseMeta { tokens, elapsed_secs, tok_per_sec },
        ),
        UiEventView::Error(text) => after_display(v, DisplayEventView::Error(text)),
        UiEventView::Done => after_display(v, DisplayEventView::Done),
    }
}

/// Text goes in at the cursor, which moves behind it.
pub open spec fn with_text(v: AppView, text: Seq<char>) -> AppView {
    AppView {
        input: v.input.take(v.cursor as int) + text + v.input.skip(v.cursor as int),
        cursor: v.cursor + text.len(),
        ..v
    }
}

/// The input from `from` up to the cursor goes, and the cursor moves there.
pub open spec fn with_cut(v: AppView, from: nat) -> AppView {
    AppView {
        input: v.input.take(from as int) + v.input.skip(v.cursor as int),
        cursor: from,
        ..v
    }
}

/// Where the last word of a text starts that ends in no white space.
pub open spec fn last_word_at(s: Seq<char>) -> nat
    decreases s.len(),
{
    if s.len() == 0 || is_white_space(s.last()) {
        s.len()
    } else {
        last_word_at(s.drop_last())
    }
}

/// The word before the cursor goes, with the white space behind it.
pub open spec fn with_word_cut(v: AppView) -> AppView {
    with_cut(v, last_word_at(trimmed_end(v.input.take(v.cursor as int))))
}

/// The character before the cursor goes.
pub open spec fn with_backspace(v: AppView) -> AppView {
    if v.cursor > 0 {
        with_cut(v, (v.cursor - 1) as nat)
    } else {
        v
    }
}

/// The character at the cursor goes.
pub open spec fn with_delete(v: AppView) -> AppView {
    if v.cursor < v.input.len() {
        AppView {
            input: v.input.take(v.cursor as int) + v.input.skip(v.cursor as int + 1),
            ..v
        }
    } else {
        v
    }
}

/// How long something has taken.
pub open spec fn elapsed(since: u64, now: u64) -> u64 {
    if now < since {
        0
    } else {
        (now - since) as u64
    }
}

/// Whether the first Esc still waits for the second.
pub open spec fn awaits_cancel(v: AppView, now: u64) -> bool {
    v.pending_cancel && (v.esc_press_time matches Some(t) ==> elapsed(t, now) < CANCEL_WINDOW_MS)
}

/// Esc is no longer remembered.
pub open spec fn with_esc_forgotten(v: AppView) -> AppView {
    AppView { pending_cancel: false, esc_press_time: None, ..v }
}

/// The state some time later: a first Esc that has waited long enough is forgotten.
pub open spec fn after_tick(v: AppView, now: u64) -> AppView {
    if awaits_cancel(v, now) {
        v
    } else {
        with_esc_forgotten(v)
    }
}

/// Whether there is something to send.
pub open spec fn can_submit(v: AppView) -> bool {
    !v.busy && (v.input.len() > 0 || v.pending_images.len() > 0)
}

/// The message is sent: it stands in the conversation, and the agent is busy with it.
pub open spec fn after_submit(v: AppView, now: u64) -> AppView {
    AppView {
        items: v.items.push(
            ItemView::UserMessage { text: v.input, images: image_names(v.pending_images) },
        ),
        input: Seq::empty(),
        cursor: 0,
        busy: true,
        busy_since: Some(now),
        auto_scroll: true,
        pending_images: Seq::empty(),
        ..v
    }
}

/// The state scrolled up.
pub open spec fn scrolled_up(v: AppView, lines: nat) -> AppView {
    AppView {
        scroll_offset: if v.scroll_offset < lines {
            0
        } else {
            (v.scroll_offset - lines) as nat
        },
        auto_scroll: false,
        ..v
    }
}

/// The state scrolled down.
pub open spec fn scrolled_down(v: AppView, lines: nat) -> AppView {
    AppView {
        scroll_offset: if v.scroll_offset + lines > usize::MAX {
            usize::MAX as nat
        } else {
            v.scroll_offset + lines
        },
        ..v
    }
}

/// The state after a character with the control key, the agent not being busy.
pub open spec fn after_control(v: AppView, ch: char) -> AppView {
    if ch == 'a' {
        AppView { cursor: 0, ..v }
    } else if ch == 'e' {
        AppView { cursor: v.input.len(), ..v }
    } else if ch == 'k' {
        AppView { input: v.input.take(v.cursor as int), ..v }
    } else if ch == 'u' {
        with_cut(v, 0)
    } else if ch == 'w' {
        with_word_cut(v)
    } else if ch == 'd' {
        AppView { pending_images: Seq::empty(), ..v }
    } else {
        v
    }
}

/// The state after a key that works on the input, the agent not being busy.
pub open spec fn after_edit(v: AppView, key: Key) -> AppView {
    match key.code {
        KeyCode::Char(ch) => if key.ctrl {
            after_control(v, ch)
        } else if key.alt {
            v
        } else {
            with_text(v, seq![ch])
        },
        KeyCode::Enter => if key.shift {
            with_text(v, seq!['\n'])
        } else {
            v
        },
        KeyCode::Backspace => if v.input.len() == 0 && v.pending_images.len() > 0 {
            AppView { pending_images: v.pending_images.drop_last(), ..v }
        } else {
            with_backspace(v)
        },
        KeyCode::Delete => with_delete(v),
        KeyCode::Left => if v.cursor > 0 {
            AppView { cursor: (v.cursor - 1) as nat, ..v }
        } else {
            v
        },
        KeyCode::Right => if v.cursor < v.input.len() {
            AppView { cursor: v.cursor + 1, ..v }
        } else {
            v
        },
        KeyCode::Home => AppView { cursor: 0, ..v },
        KeyCode::End => AppView { cursor: v.input.len(), ..v },
        _ => v,
    }
}

/// The state after a key.
pub open spec fn after_key(v: AppView, key: Key, now: u64) -> AppView {
    if !key.pressed {
        v
    } else {
        match key.code {
            KeyCode::Up => if key.shift {
                scrolled_up(v, 3)
            } else {
                v
            },
            KeyCode::Down => if key.shift {
                scrolled_down(v, 3)
            } else {
                v
            },
            KeyCode::PageUp => scrolled_up(v, 20),
            KeyCode::PageDown => scrolled_down(v, 20),
            KeyCode::Esc => if !v.busy {
                v
            } else if awaits_cancel(v, now) {
                with_esc_forgotten(v)
            } else {
                AppView { pending_cancel: true, esc_press_time: Some(now), ..v }
            },
            _ => if v.busy {
                v
            } else if key.code is Enter && !key.shift && can_submit(v) {
                after_submit(v, now)
            } else {
                after_edit(v, key)
            },
        }
    }
}

/// What a key asks for.
pub open spec fn key_outcome(v: AppView, key: Key, now: u64) -> KeyOutcomeView {
    if !key.pressed {
        KeyOutcomeView::Continue
    } else if key.code == KeyCode::Char('c') && key.ctrl {
        KeyOutcomeView::Quit
    } else if key.code is Enter && !key.shift && can_submit(v) {
        KeyOutcomeView::Submit { text: v.input, images: v.pending_images }
    } else if key.code is Esc && v.busy && awaits_cancel(v, now) {
        KeyOutcomeView::Cancel
    } else {
        KeyOutcomeView::Continue
    }
}

/// What becomes of a pasted text.
pub open spec fn paste_step(v: AppView, text: Seq<char>) -> PasteStepView {
    if v.busy {
        PasteStepView::Ignored
    } else if names_image(path_in(text)) {
        PasteStepView::Image(path_in(text))
    } else {
        PasteStepView::Inserted
    }
}

/// The state after a pasted text that is no path of an image.
pub open spec fn after_text_paste(v: AppView, text: Seq<char>) -> AppView {
    if v.busy {
        v
    } else {
        with_text(v, text)
    }
}

/// The state after a pasted text.
pub open spec fn after_paste(v: AppView, text: Seq<char>) -> AppView {
    if paste_step(v, text) is Inserted {
        after_text_paste(v, text)
    } else {
        v
    }
}

/// The state once a file was read that a pasted text named.
pub open spec fn after_image(
    v: AppView,
    path: Seq<char>,
    filename: Seq<char>,
    data: Result<Seq<u8>, Seq<char>>,
) -> AppView {
    match data {
        Ok(bytes) => if bytes.len() > MAX_IMAGE_BYTES {
            AppView { items: v.items.push(ItemView::Error("Image too large (max 20MB)"@)), ..v }
        } else {
            AppView {
                pending_images: v.pending_images.push(
                    ImageView {
                        filename,
                        base64_data: base64(bytes),
                        media_type: media_type(path),
                    },
                ),
                ..v
            }
        },
        Err(e) => AppView {
            items: v.items.push(ItemView::Error("Failed to read image: "@ + e)),
            ..v
        },
    }
}

/// The terminal interface's state.
#[derive(Debug)]
pub struct App {
    items: Vec<ConversationItem>,
    input: Vec<char>,
    cursor: usize,
    scroll_offset: usize,
    auto_scroll: bool,
    busy: bool,
    busy_since: Option<u64>,
    model: String,
    context_limit: u64,
    context_tokens: u64,
    total_output_tokens: u64,
    plugin_count: usize,
    pending_cancel: bool,
    esc_press_time: Option<u64>,
    pending_images: Vec<ImageAttachment>,
}

impl View for App {
    type V = AppView;

    closed spec fn view(&self) -> AppView {
        AppView {
            items: items_view(self.items@),
            input: self.input@,
            cursor: self.cursor as nat,
            scroll_offset: self.scroll_offset as nat,
            auto_scroll: self.auto_scroll,
            busy: self.busy,
            busy_since: self.busy_since,
            model: self.model@,
            context_limit: self.context_limit,
            context_tokens: self.context_tokens,
            total_output_tokens: self.total_output_tokens,
            plugin_count: self.plugin_count as nat,
            pending_cancel: self.pending_cancel,
            esc_press_time: self.esc_press_time,
            pending_images: images_view(self.pending_images@),
        }
    }
}

/// Whether a state can come about: the cursor stands within the input, it is known since
/// when the agent is busy, and Esc is remembered only while it is.
pub open spec fn valid(v: AppView) -> bool {
    &&& v.cursor <= v.input.len()
    &&& v.busy == v.busy_since is Some
    &&& v.pending_cancel == v.esc_press_time is Some
    &&& v.pending_cancel ==> v.busy
}

impl App {
    /// An empty conversation.
    pub fn new(model: String, context_limit: u64) -> (r: Self)
        ensures
            valid(r@),
            r@ == (AppView {
                items: Seq::empty(),
                input: Seq::empty(),
                cursor: 0,
                scroll_offset: 0,
                auto_scroll: true,
                busy: false,
                busy_since: None,
                model: model@,
                context_limit,
                context_tokens: 0,
                total_output_tokens: 0,
                plugin_count: 0,
                pending_cancel: false,
                esc_press_time: None,
                pending_images: Seq::empty(),
            }),
    {
        let r = App {
            items: Vec::new(),
            input: Vec::new(),
            cursor: 0,
            scroll_offset: 0,
            auto_scroll: true,
            busy: false,
            busy_since: None,
            model,
            context_limit,
            context_tokens: 0,
            total_output_tokens: 0,
            plugin_count: 0,
            pending_cancel: false,
            esc_press_time: None,
            pending_images: Vec::new(),
        };
        assert(items_view(r.items@) =~= Seq::empty());
        assert(r.input@ =~= Seq::empty());
        assert(images_view(r.pending_images@) =~= Seq::empty());
        r
    }

    /// How many tokens were generated so far.
    pub fn output_tokens(&self) -> (r: u64)
        ensures
            r == self@.total_output_tokens,
    {
        self.total_output_tokens
    }

    /// Forgets the first Esc once it has waited long enough for the second.
    pub fn tick(&mut self, now: u64)
        requires
            valid(old(self)@),
        ensures
            valid(final(self)@),
            final(self)@ == after_tick(old(self)@, now),
    {
        if !self.awaits(now) {
            self.pending_cancel = false;
            self.esc_press_time = None;
        }
    }

    fn awaits(&self, now: u64) -> (r: bool)
        ensures
            r == awaits_cancel(self@, now),
    {
        if !self.pending_cancel {
            return false;
        }
        match self.esc_press_time {
            Some(t) => time_since(t, now) < CANCEL_WINDOW_MS,
            None => true,
        }
    }

    /// Shows an event.
    pub fn handle_ui_event(&mut self, event: DisplayEvent)
        requires
            valid(old(self)@),
            event matches DisplayEvent::TokenUsage { output, .. } ==> old(
                self,
            )@.total_output_tokens + output <= u64::MAX,
        ensures
            valid(final(self)@),
            final(self)@ == after_display(old(self)@, event@),
    {
        match event {
            DisplayEvent::PluginsLoaded { count } => {
                self.plugin_count = count;
            },
            DisplayEvent::ThinkingStart => {
                let text = String::new();
                assert(text@ =~= Seq::empty());
                push_item(
                    &mut self.items,
                    ConversationItem::Thinking { text, is_running: true },
                );
            },
            DisplayEvent::ThinkingDelta(delta) => {
                add_thinking(&mut self.items, delta.as_str());
            },
            DisplayEvent::TextStart => {
                end_active_thinking(&mut self.items);
                let text = String::new();
                assert(text@ =~= Seq::empty());
                push_item(&mut self.items, ConversationItem::AssistantText(text));
            },
            DisplayEvent::TextDelta(text) => {
                add_text(&mut self.items, text.as_str());
            },
            DisplayEvent::ToolCallBegin { index, name } => {
                begin_tool(&mut self.items, index, name);
            },
            DisplayEvent::ToolCallArgs { index, args_summary } => {
                note_tool_args(&mut self.items, index, args_summary);
            },
            DisplayEvent::ToolResult { index, output_summary } => {
                note_tool_result(&mut self.items, index, output_summary);
            },
            DisplayEvent::Error(text) => {
                end_active_thinking(&mut self.items);
                push_item(&mut self.items, ConversationItem::Error(text));
            },
            DisplayEvent::TokenUsage { context, output } => {
                self.context_tokens = context;
                self.total_output_tokens = self.total_output_tokens + output;
            },
            DisplayEvent::ResponseMeta { tokens, elapsed_secs, tok_per_sec } => {
                push_item(
                    &mut self.items,
                    ConversationItem::ResponseMeta { tokens, elapsed_secs, tok_per_sec },
                );
            },
            DisplayEvent::Done => {
                end_active_thinking(&mut self.items);
                self.busy = false;
                self.busy_since = None;
                self.pending_cancel = false;
                self.esc_press_time = None;
            },
        }
    }

    /// Shows an event of the agent.
    pub fn receive(&mut self, event: UiEvent)
        requires
            valid(old(self)@),
            event matches UiEvent::TokenUsage { output, .. } ==> old(self)@.total_output_tokens
                + output <= u64::MAX,
        ensures
            valid(final(self)@),
            final(self)@ == after_agent_event(old(self)@, event@),
    {
        match event {
            UiEvent::PluginsLoaded { count } => {
                self.handle_ui_event(DisplayEvent::PluginsLoaded { count });
            },
            UiEvent::ThinkingStart => {
                self.handle_ui_event(DisplayEvent::ThinkingStart);
            },
            UiEvent::ThinkingDelta(text) => {
                self.handle_ui_event(DisplayEvent::ThinkingDelta(text));
            },
            UiEvent::TextStart => {
                self.handle_ui_event(DisplayEvent::TextStart);
            },
            UiEvent::TextDelta(text) => {
                self.handle_ui_event(DisplayEvent::TextDelta(text));
            },
            UiEvent::ToolCall { name, args_summary } => {
                let index = self.items.len();
                self.handle_ui_event(DisplayEvent::ToolCallBegin { index, name });
                self.handle_ui_event(DisplayEvent::ToolCallArgs { index, args_summary });
            },
            UiEvent::ToolResult { output_summary } => {
                if let Some(index) = last_tool_index(&self.items) {
                    self.handle_ui_event(DisplayEvent::ToolResult { index, output_summary });
                }
            },
            UiEvent::TokenUsage { context, output } => {
                self.handle_ui_event(DisplayEvent::TokenUsage { context, output });
            },
            UiEvent::ResponseMeta { tokens, elapsed_secs, tok_per_sec } => {
                self.handle_ui_event(
                    DisplayEvent::ResponseMeta { tokens, elapsed_secs, tok_per_sec },
                );
            },
            UiEvent::Error(text) => {
                self.handle_ui_event(DisplayEvent::Error(text));
            },
            UiEvent::Done => {
                self.handle_ui_event(DisplayEvent::Done);
            },
        }
    }

    /// Puts a character in at the cursor.
    pub fn insert_char(&mut self, ch: char)
        requires
            valid(old(self)@),
        ensures
            valid(final(self)@),
            final(self)@ == with_text(old(self)@, seq![ch]),
    {
        let at = self.cursor;
        self.input.insert(at, ch);
        let n = self.input.len();
        assert(n == old(self).input@.len() + 1);
        self.cursor = at + 1;
        assert(self.input@ =~= old(self).input@.take(at as int) + seq![ch] + old(
            self,
        ).input@.skip(at as int));
    }

    /// Puts a text in at the cursor.
    fn insert_text(&mut self, text: &str)
        requires
            valid(old(self)@),
        ensures
            valid(final(self)@),
            final(self)@ == with_text(old(self)@, text@),
    {
        let cs = chars_of(text);
        let mut i: usize = 0;
        proof {
            let v = self@;
            assert(v.input.take(v.cursor as int) + cs@.take(0) + v.input.skip(v.cursor as int)
                =~= v.input);
        }
        while i < cs.len()
            invariant
                i <= cs@.len(),
                cs@ == text@,
                valid(old(self)@),
                valid(self@),
                self@ == with_text(old(self)@, cs@.take(i as int)),
            decreases cs@.len() - i,
        {
            let ghost v = self@;
            let ghost u = old(self)@;
            self.insert_char(cs[i]);
            proof {
                let c = u.cursor as int;
                let head = u.input.take(c) + cs@.take(i as int);
                assert(v.input.take(v.cursor as int) =~= head);
                assert(v.input.skip(v.cursor as int) =~= u.input.skip(c));
                assert(cs@.take(i + 1) =~= cs@.take(i as int) + seq![cs@[i as int]]);
                assert(self@.input =~= u.input.take(c) + cs@.take(i + 1) + u.input.skip(c));
            }
            i = i + 1;
        }
        assert(cs@.take(i as int) =~= cs@);
    }

    /// Takes out the input from `from` up to the cursor.
    fn cut(&mut self, from: usize)
        requires
            valid(old(self)@),
            from <= old(self)@.cursor,
        ensures
            valid(final(self)@),
            final(self)@ == with_cut(old(self)@, from as nat),
    {
        let ghost input = self.input@;
        let ghost cursor = self.cursor as int;
        while self.cursor > from
            invariant
                from <= self.cursor <= cursor <= input.len(),
                self.input@ == input.take(self.cursor as int) + input.skip(cursor),
                self@ == (AppView {
                    input: self.input@,
                    cursor: self.cursor as nat,
                    ..old(self)@
                }),
            decreases self.cursor - from,
        {
            let at = self.cursor - 1;
            self.input.remove(at);
            self.cursor = at;
            assert(self.input@ =~= input.take(at as int) + input.skip(cursor));
        }
    }

    /// Takes out the character before the cursor.
    pub fn delete_before_cursor(&mut self)
        requires
            valid(old(self)@),
        ensures
            valid(final(self)@),
            final(self)@ == with_backspace(old(self)@),
    {
        if self.cursor > 0 {
            self.cut(self.cursor - 1);
        }
    }

    /// Takes out the character at the cursor.
    pub fn delete_at_cursor(&mut self)
        requires
            valid(old(self)@),
        ensures
            valid(final(self)@),
            final(self)@ == with_delete(old(self)@),
    {
        if self.cursor < self.input.len() {
            let at = self.cursor;
            self.input.remove(at);
            assert(self.input@ =~= old(self).input@.take(at as int) + old(self).input@.skip(
                at + 1,
            ));
        }
    }

    /// Takes out the word before the cursor.
    fn delete_word(&mut self)
        requires
            valid(old(self)@),
        ensures
            valid(final(self)@),
            final(self)@ == with_word_cut(old(self)@),
    {
        let end = trim_end_index(&self.input, 0, self.cursor);
        let ghost left = trimmed_end(self.input@.take(self.cursor as int));
        assert(self.input@.take(self.cursor as int) =~= self.input@.subrange(
            0,
            self.cursor as int,
        ));
        let mut start: usize = end;
        assert(left =~= self.input@.take(end as int));
        while start > 0 && !white_space(self.input[start - 1])
            invariant
                start <= end <= self.input@.len(),
                last_word_at(left) == last_word_at(self.input@.take(start as int)),
            decreases start,
        {
            assert(self.input@.take(start as int).drop_last() =~= self.input@.take(start - 1));
            start = start - 1;
        }
        self.cut(start);
    }

    /// Works on the input as a character with the control key asks.
    fn control(&mut self, ch: char)
        requires
            valid(old(self)@),
        ensures
            valid(final(self)@),
            final(self)@ == after_control(old(self)@, ch),
    {
        if ch == 'a' {
            self.cursor = 0;
        } else if ch == 'e' {
            self.cursor = self.input.len();
        } else if ch == 'k' {
            let at = self.cursor;
            self.input.truncate(at);
        } else if ch == 'u' {
            self.cut(0);
        } else if ch == 'w' {
            self.delete_word();
        } else if ch == 'd' {
            self.pending_images = Vec::new();
            assert(images_view(self.pending_images@) =~= Seq::empty());
        }
    }

    /// Works on the input as a key asks.
    fn edit(&mut self, key: Key)
        requires
            valid(old(self)@),
        ensures
            valid(final(self)@),
            final(self)@ == after_edit(old(self)@, key),
    {
        match key.code {
            KeyCode::Char(ch) => {
                if key.ctrl {
                    self.control(ch);
                } else if !key.alt {
                    self.insert_char(ch);
                }
            },
            KeyCode::Enter => {
                if key.shift {
                    self.insert_char('\n');
                }
            },
            KeyCode::Backspace => {
                if self.input.len() == 0 && self.pending_images.len() > 0 {
                    self.pending_images.pop();
                    assert(images_view(self.pending_images@) =~= images_view(
                        old(self).pending_images@,
                    ).drop_last());
                } else {
                    self.delete_before_cursor();
                }
            },
            KeyCode::Delete => {
                self.delete_at_cursor();
            },
            KeyCode::Left => {
                if self.cursor > 0 {
                    self.cursor = self.cursor - 1;
                }
            },
            KeyCode::Right => {
                if self.cursor < self.input.len() {
                    self.cursor = self.cursor + 1;
                }
            },
            KeyCode::Home => {
                self.cursor = 0;
            },
            KeyCode::End => {
                self.cursor = self.input.len();
            },
            _ => {},
        }
    }

    fn scroll_up(&mut self, lines: usize)
        requires
            valid(old(self)@),
        ensures
            valid(final(self)@),
            final(self)@ == scrolled_up(old(self)@, lines as nat),
    {
        self.scroll_offset = if self.scroll_offset < lines {
            0
        } else {
            self.scroll_offset - lines
        };
        self.auto_scroll = false;
    }

    fn scroll_down(&mut self, lines: usize)
        requires
            valid(old(self)@),
        ensures
            valid(final(self)@),
            final(self)@ == scrolled_down(old(self)@, lines as nat),
    {
        self.scroll_offset = if self.scroll_offset > usize::MAX - lines {
            usize::MAX
        } else {
            self.scroll_offset + lines
        };
    }

    /// Takes the message out of the input and puts it into the conversation.
    fn submit(&mut self, now: u64) -> (r: KeyOutcome)
        requires
            valid(old(self)@),
            can_submit(old(self)@),
        ensures
            valid(final(self)@),
            final(self)@ == after_submit(old(self)@, now),
            r@ == (KeyOutcomeView::Submit {
                text: old(self)@.input,
                images: old(self)@.pending_images,
            }),
    {
        let n = self.input.len();
        let text = string_of(&self.input, 0, n);
        assert(text@ =~= self.input@);
        let mut images: Vec<ImageAttachment> = Vec::new();
        images.append(&mut self.pending_images);
        assert(images@ =~= old(self).pending_images@);
        let mut names: Vec<String> = Vec::new();
        let mut i: usize = 0;
        while i < images.len()
            invariant
                i <= images@.len(),
                views(names@) =~= image_names(images_view(images@)).take(i as int),
            decreases images@.len() - i,
        {
            let ghost before = names@;
            let name = images[i].filename.clone();
            names.push(name);
            proof {
                let all = image_names(images_view(images@));
                assert(views(names@) =~= views(before).push(name@));
                assert(all[i as int] == name@);
                assert(all.take(i + 1) =~= all.take(i as int).push(name@));
            }
            i = i + 1;
        }
        assert(views(names@) =~= image_names(images_view(images@)));
        let shown = text.clone();
        push_item(&mut self.items, ConversationItem::UserMessage { text: shown, images: names });
        self.input = Vec::new();
        self.cursor = 0;
        self.busy = true;
        self.busy_since = Some(now);
        self.auto_scroll = true;
        assert(images_view(self.pending_images@) =~= Seq::empty());
        assert(self.input@ =~= Seq::empty());
        KeyOutcome::Submit { text, images }
    }

    /// Notes an Esc; the second of two in time cancels.
    fn press_esc(&mut self, now: u64) -> (r: bool)
        requires
            valid(old(self)@),
            old(self)@.busy,
        ensures
            valid(final(self)@),
            r == awaits_cancel(old(self)@, now),
            final(self)@ == if r {
                with_esc_forgotten(old(self)@)
            } else {
                AppView { pending_cancel: true, esc_press_time: Some(now), ..old(self)@ }
            },
    {
        let cancel = self.awaits(now);
        if cancel {
            self.pending_cancel = false;
            self.esc_press_time = None;
        } else {
            self.pending_cancel = true;
            self.esc_press_time = Some(now);
        }
        cancel
    }

    /// Does what a key asks of the interface, and says what it asks beyond.
    pub fn handle_key(&mut self, key: Key, now: u64) -> (r: KeyOutcome)
        requires
            valid(old(self)@),
        ensures
            valid(final(self)@),
            final(self)@ == after_key(old(self)@, key, now),
            r@ == key_outcome(old(self)@, key, now),
    {
        if !key.pressed {
            return KeyOutcome::Continue;
        }
        match key.code {
            KeyCode::Up => {
                if key.shift {
                    self.scroll_up(3);
                }
            },
            KeyCode::Down => {
                if key.shift {
                    self.scroll_down(3);
                }
            },
            KeyCode::PageUp => {
                self.scroll_up(20);
            },
            KeyCode::PageDown => {
                self.scroll_down(20);
            },
            KeyCode::Esc => {
                if self.busy && self.press_esc(now) {
                    return KeyOutcome::Cancel;
                }
            },
            KeyCode::Char('c') if key.ctrl => {
                return KeyOutcome::Quit;
            },
            KeyCode::Enter => {
                if !self.busy {
                    if key.shift {
                        self.edit(key);
                    } else if self.input.len() > 0 || self.pending_images.len() > 0 {
                        return self.submit(now);
                    }
                }
            },
            _ => {
                if !self.busy {
                    self.edit(key);
                }
            },
        }
        KeyOutcome::Continue
    }

    /// Takes a pasted text: one that names an image is to be looked up, any other goes in
    /// at the cursor. While the agent is busy nothing happens.
    pub fn paste(&mut self, text: &str) -> (r: PasteStep)
        requires
            valid(old(self)@),
        ensures
            valid(final(self)@),
            r@ == paste_step(old(self)@, text@),
            final(self)@ == after_paste(old(self)@, text@),
    {
        if self.busy {
            return PasteStep::Ignored;
        }
        let path = pasted_path(text);
        if is_image_file(path.as_str()) {
            return PasteStep::Image(path);
        }
        self.insert_text(text);
        PasteStep::Inserted
    }

    /// Takes a pasted text that names an image which is not there.
    pub fn paste_as_text(&mut self, text: &str)
        requires
            valid(old(self)@),
        ensures
            valid(final(self)@),
            final(self)@ == after_text_paste(old(self)@, text@),
    {
        if !self.busy {
            self.insert_text(text);
        }
    }

    /// Takes the file that a pasted text named, under the name to show: what was read of
    /// it, or why it could not be read.
    pub fn attach_image(&mut self, path: &str, filename: String, data: Result<Vec<u8>, String>)
        requires
            valid(old(self)@),
        ensures
            valid(final(self)@),
            final(self)@ == after_image(
                old(self)@,
                path@,
                filename@,
                match data {
                    Ok(bytes) => Ok(bytes@),
                    Err(e) => Err(e@),
                },
            ),
    {
        match data {
            Ok(bytes) => {
                if bytes.len() > MAX_IMAGE_BYTES {
                    push_item(
                        &mut self.items,
                        ConversationItem::Error("Image too large (max 20MB)".to_string()),
                    );
                } else {
                    let image = ImageAttachment {
                        filename,
                        base64_data: base64_encode(bytes.as_slice()),
                        media_type: media_type_for_path(path).to_string(),
                    };
                    self.pending_images.push(image);
                    assert(images_view(self.pending_images@) =~= images_view(
                        old(self).pending_images@,
                    ).push(image@));
                }
            },
            Err(e) => {
                let mut message = "Failed to read image: ".to_string();
                message.append(e.as_str());
                push_item(&mut self.items, ConversationItem::Error(message));
            },
        }
    }
}

/// How long something has taken.
fn time_since(since: u64, now: u64) -> (r: u64)
    ensures
        r == elapsed(since, now),
{
    if now < since {
        0
    } else {
        now - since
    }
}

} // verus!
