//! What the terminal interface looks like: styled lines, without a terminal.

use vstd::prelude::*;
use crate::conversation::{items_view, ConversationItem, ItemView};
use crate::number::{decimal, push_decimal};
use crate::text::{join, joined, string_of, views};
use crate::tokens::{usage_label, usage_text};
use crate::ui::{elapsed, image_names, images_view, time_since, valid, App, AppView};
use crate::wrap::{flattened, wrap_with_prefix, wrapped};

verus! {

broadcast use vstd::seq::group_seq_axioms;

/// How long a frame of the spinner stands.
pub const SPINNER_INTERVAL_MS: u64 = 80;

#[derive(Debug, Clone, Copy, PartialEq, Eq, Structural)]
pub enum Color {
    Black,
    Gray,
    DarkGray,
    White,
    Red,
    Green,
    Yellow,
    Cyan,
    Magenta,
}

/// How text looks; what is not given is left to the terminal.
#[derive(Debug, Clone, Copy, PartialEq, Eq, Structural)]
pub struct Style {
    pub fg: Option<Color>,
    pub bg: Option<Color>,
    pub bold: bool,
}

/// The terminal's own style.
pub open spec fn plain() -> Style {
    Style { fg: None, bg: None, bold: false }
}

/// A color.
pub open spec fn ink(fg: Color) -> Style {
    Style { fg: Some(fg), bg: None, bold: false }
}

/// A color in bold.
pub open spec fn bold(fg: Color) -> Style {
    Style { fg: Some(fg), bg: None, bold: true }
}

/// A color on another.
pub open spec fn on(fg: Color, bg: Color) -> Style {
    Style { fg: Some(fg), bg: Some(bg), bold: false }
}

/// A color on another in bold.
pub open spec fn bold_on(fg: Color, bg: Color) -> Style {
    Style { fg: Some(fg), bg: Some(bg), bold: true }
}

/// Text in one style.
#[derive(Debug)]
pub struct Span {
    pub text: String,
    pub style: Style,
}

pub struct SpanView {
    pub text: Seq<char>,
    pub style: Style,
}

impl View for Span {
    type V = SpanView;

    open spec fn view(&self) -> SpanView {
        SpanView { text: self.text@, style: self.style }
    }
}

/// The views of some spans.
pub open spec fn spans_view(spans: Seq<Span>) -> Seq<SpanView> {
    spans.map_values(|span: Span| span@)
}

/// A line of the screen.
#[derive(Debug)]
pub struct StyledLine {
    pub spans: Vec<Span>,
}

impl View for StyledLine {
    type V = Seq<SpanView>;

    open spec fn view(&self) -> Seq<SpanView> {
        spans_view(self.spans@)
    }
}

/// The views of some lines.
pub open spec fn styled_view(lines: Seq<StyledLine>) -> Seq<Seq<SpanView>> {
    lines.map_values(|line: StyledLine| line@)
}

/// A line in one style.
pub open spec fn one_span(text: Seq<char>, style: Style) -> Seq<SpanView> {
    seq![SpanView { text, style }]
}

/// A line with nothing in it.
pub open spec fn blank() -> Seq<SpanView> {
    Seq::empty()
}

/// Rows in one style.
pub open spec fn rows_in(rows: Seq<Seq<char>>, style: Style) -> Seq<Seq<SpanView>> {
    rows.map_values(|row: Seq<char>| one_span(row, style))
}

/// How many characters some spans take.
pub open spec fn spans_width(spans: Seq<SpanView>) -> nat
    decreases spans.len(),
{
    if spans.len() == 0 {
        0
    } else {
        spans_width(spans.drop_last()) + spans.last().text.len()
    }
}

/// A frame of the spinner.
pub open spec fn frame(at: int) -> Seq<char> {
    if at == 0 {
        "⠋"@
    } else if at == 1 {
        "⠙"@
    } else if at == 2 {
        "⠹"@
    } else if at == 3 {
        "⠸"@
    } else if at == 4 {
        "⠼"@
    } else if at == 5 {
        "⠴"@
    } else if at == 6 {
        "⠦"@
    } else if at == 7 {
        "⠧"@
    } else if at == 8 {
        "⠇"@
    } else {
        "⠏"@
    }
}

/// The spinner: its frames follow one another while the agent is busy.
pub open spec fn spinner_text(v: AppView, now: u64) -> Seq<char> {
    match v.busy_since {
        Some(since) => frame((elapsed(since, now) / SPINNER_INTERVAL_MS) as int % 10),
        None => Seq::empty(),
    }
}

/// The line about a response.
pub open spec fn meta_text(tokens: u64, elapsed_secs: Seq<char>, tok_per_sec: Seq<char>) -> Seq<
    char,
> {
    "  "@ + decimal(tokens as nat) + " tokens · "@ + tok_per_sec + " tok/s · "@ + elapsed_secs
        + "s"@
}

/// The first line of a tool block.
pub open spec fn tool_heading(name: Seq<char>, is_running: bool, spinner: Seq<char>) -> Seq<char> {
    if is_running {
        " ["@ + name + "]"@ + " "@ + spinner + " running..."@
    } else {
        " ["@ + name + "]"@
    }
}

/// Whether there are arguments to show.
pub open spec fn shows_args(args_summary: Option<Seq<char>>) -> bool {
    args_summary matches Some(args) && args.len() > 0
}

/// The arguments of a tool block.
pub open spec fn args_lines(args_summary: Option<Seq<char>>, w: nat) -> Seq<Seq<SpanView>> {
    if shows_args(args_summary) {
        rows_in(wrapped("args: "@ + args_summary->0, " │ "@, w), ink(Color::DarkGray))
    } else {
        Seq::empty()
    }
}

/// The last line of a tool block that shows anything.
pub open spec fn tool_end(args_summary: Option<Seq<char>>, output: Seq<char>) -> Seq<
    Seq<SpanView>,
> {
    if shows_args(args_summary) || output.len() > 0 {
        seq![one_span(" └"@, ink(Color::DarkGray))]
    } else {
        Seq::empty()
    }
}

/// The lines of an item, with a blank one behind them.
pub open spec fn item_lines(item: ItemView, w: nat, spinner: Seq<char>) -> Seq<Seq<SpanView>> {
    match item {
        ItemView::UserMessage { text, images } => seq![one_span(" You"@, bold(Color::Cyan))]
            + rows_in(img_rows(images), ink(Color::Magenta)) + rows_in(
            wrapped(text, "  "@, w),
            ink(Color::Cyan),
        ) + seq![blank()],
        ItemView::Thinking { text, is_running } => seq![
            one_span(
                if is_running {
                    "  Thinking..."@
                } else {
                    "  Thought"@
                },
                ink(Color::DarkGray),
            ),
        ] + rows_in(wrapped(text, "  "@, w), ink(Color::DarkGray)) + seq![blank()],
        ItemView::AssistantText(text) => seq![one_span(" Assistant"@, bold(Color::Green))]
            + rows_in(wrapped(text, "  "@, w), plain()) + seq![blank()],
        ItemView::ResponseMeta { tokens, elapsed_secs, tok_per_sec } => rows_in(
            wrapped(meta_text(tokens, elapsed_secs, tok_per_sec), ""@, w),
            ink(Color::DarkGray),
        ) + seq![blank()],
        ItemView::ToolBlock { index, name, args_summary, output, is_running } => seq![
            one_span(tool_heading(name, is_running, spinner), bold(Color::Yellow)),
        ] + args_lines(args_summary, w) + rows_in(
            wrapped(output, " │ "@, w),
            ink(Color::DarkGray),
        ) + tool_end(args_summary, output) + seq![blank()],
        ItemView::Error(text) => rows_in(
            wrapped(" Error: "@ + text, ""@, w),
            ink(Color::Red),
        ) + seq![blank()],
    }
}

/// The rows that name the images of a message.
pub open spec fn img_rows(images: Seq<Seq<char>>) -> Seq<Seq<char>> {
    images.map_values(|name: Seq<char>| "  [img: "@ + name + "]"@)
}

/// The lines of some items.
pub open spec fn items_lines(items: Seq<ItemView>, w: nat, spinner: Seq<char>) -> Seq<
    Seq<SpanView>,
>
    decreases items.len(),
{
    if items.len() == 0 {
        Seq::empty()
    } else {
        items_lines(items.drop_last(), w, spinner) + item_lines(items.last(), w, spinner)
    }
}

/// The lines of the whole conversation.
pub open spec fn conversation_lines(v: AppView, w: nat, now: u64) -> Seq<Seq<SpanView>> {
    items_lines(v.items, w, spinner_text(v, now))
}

/// The terminal's own style.
fn plain_style() -> (r: Style)
    ensures
        r == plain(),
{
    Style { fg: None, bg: None, bold: false }
}

/// A color.
fn ink_style(fg: Color) -> (r: Style)
    ensures
        r == ink(fg),
{
    Style { fg: Some(fg), bg: None, bold: false }
}

/// A color in bold.
fn bold_style(fg: Color) -> (r: Style)
    ensures
        r == bold(fg),
{
    Style { fg: Some(fg), bg: None, bold: true }
}

/// A line in one style.
fn line_of(text: String, style: Style) -> (r: StyledLine)
    ensures
        r@ == one_span(text@, style),
{
    let mut spans: Vec<Span> = Vec::new();
    spans.push(Span { text, style });
    let r = StyledLine { spans };
    assert(r@ =~= one_span(text@, style));
    r
}

/// Adds a line.
fn push_line(lines: &mut Vec<StyledLine>, line: StyledLine)
    ensures
        styled_view(final(lines)@) == styled_view(old(lines)@).push(line@),
{
    lines.push(line);
    assert(styled_view(lines@) =~= styled_view(old(lines)@).push(line@));
}

/// Adds a line in one style.
fn push_text(lines: &mut Vec<StyledLine>, text: &str, style: Style)
    ensures
        styled_view(final(lines)@) == styled_view(old(lines)@) + seq![one_span(text@, style)],
{
    push_line(lines, line_of(text.to_string(), style));
    assert(styled_view(lines@) =~= styled_view(old(lines)@) + seq![one_span(text@, style)]);
}

/// Adds a blank line.
fn push_blank(lines: &mut Vec<StyledLine>)
    ensures
        styled_view(final(lines)@) == styled_view(old(lines)@) + seq![blank()],
{
    let line = StyledLine { spans: Vec::new() };
    assert(line@ =~= blank());
    push_line(lines, line);
    assert(styled_view(lines@) =~= styled_view(old(lines)@) + seq![blank()]);
}

/// Adds rows in one style.
fn push_rows(lines: &mut Vec<StyledLine>, rows: &Vec<String>, style: Style)
    ensures
        styled_view(final(lines)@) == styled_view(old(lines)@) + rows_in(views(rows@), style),
{
    let ghost before = styled_view(lines@);
    let ghost more = rows_in(views(rows@), style);
    let mut i: usize = 0;
    assert(before + more.take(0) =~= before);
    while i < rows.len()
        invariant
            i <= rows@.len(),
            more == rows_in(views(rows@), style),
            styled_view(lines@) == before + more.take(i as int),
        decreases rows@.len() - i,
    {
        push_text(lines, rows[i].as_str(), style);
        proof {
            assert(more[i as int] == one_span(rows@[i as int]@, style));
            assert(before + more.take(i as int) + seq![more[i as int]] =~= before + more.take(
                i + 1,
            ));
        }
        i = i + 1;
    }
    assert(more.take(i as int) =~= more);
}

/// Adds a text, wrapped, in one style.
fn push_wrapped(lines: &mut Vec<StyledLine>, text: &str, prefix: &str, w: usize, style: Style)
    ensures
        styled_view(final(lines)@) == styled_view(old(lines)@) + rows_in(
            wrapped(text@, prefix@, w as nat),
            style,
        ),
{
    let rows = wrap_with_prefix(text, prefix, w);
    push_rows(lines, &rows, style);
}

/// Adds the names of a message's images.
fn push_images(lines: &mut Vec<StyledLine>, images: &Vec<String>)
    ensures
        styled_view(final(lines)@) == styled_view(old(lines)@) + rows_in(
            img_rows(views(images@)),
            ink(Color::Magenta),
        ),
{
    let ghost all = img_rows(views(images@));
    let mut rows: Vec<String> = Vec::new();
    let mut i: usize = 0;
    while i < images.len()
        invariant
            i <= images@.len(),
            all == img_rows(views(images@)),
            views(rows@) =~= all.take(i as int),
        decreases images@.len() - i,
    {
        let mut row = "  [img: ".to_string();
        row.append(images[i].as_str());
        row.append("]");
        let ghost before = rows@;
        rows.push(row);
        proof {
            assert(views(rows@) =~= views(before).push(row@));
            assert(all[i as int] == row@);
            assert(all.take(i + 1) =~= all.take(i as int).push(row@));
        }
        i = i + 1;
    }
    assert(views(rows@) =~= all);
    push_rows(lines, &rows, ink_style(Color::Magenta));
}

/// Adds a tool block.
fn push_tool(
    lines: &mut Vec<StyledLine>,
    name: &str,
    args_summary: &Option<String>,
    output: &str,
    is_running: bool,
    spinner: &str,
    w: usize,
)
    ensures
        forall|index: usize|
            styled_view(final(lines)@) == styled_view(old(lines)@) + #[trigger] item_lines(
                ItemView::ToolBlock {
                    index,
                    name: name@,
                    args_summary: crate::api::opt_view(*args_summary),
                    output: output@,
                    is_running,
                },
                w as nat,
                spinner@,
            ),
{
    let ghost before = styled_view(lines@);
    let ghost given = crate::api::opt_view(*args_summary);
    let dim = ink_style(Color::DarkGray);
    let mut heading = " [".to_string();
    heading.append(name);
    heading.append("]");
    if is_running {
        heading.append(" ");
        heading.append(spinner);
        heading.append(" running...");
    }
    push_text(lines, heading.as_str(), bold_style(Color::Yellow));
    let mut shown = false;
    if let Some(args) = args_summary {
        if args.as_str().unicode_len() > 0 {
            shown = true;
            let mut args_line = "args: ".to_string();
            args_line.append(args.as_str());
            push_wrapped(lines, args_line.as_str(), " │ ", w, dim);
        }
    }
    assert(shown == shows_args(given));
    let ghost head = seq![one_span(tool_heading(name@, is_running, spinner@), bold(Color::Yellow))];
    assert(styled_view(lines@) =~= before + head + args_lines(given, w as nat));
    push_wrapped(lines, output, " │ ", w, dim);
    if shown || output.unicode_len() > 0 {
        push_text(lines, " └", dim);
    }
    push_blank(lines);
    proof {
        assert forall|index: usize|
            styled_view(lines@) == before + #[trigger] item_lines(
                ItemView::ToolBlock {
                    index,
                    name: name@,
                    args_summary: given,
                    output: output@,
                    is_running,
                },
                w as nat,
                spinner@,
            ) by {
            let body = rows_in(wrapped(output@, " │ "@, w as nat), ink(Color::DarkGray));
            let all = head + args_lines(given, w as nat) + body + tool_end(given, output@)
                + seq![blank()];
            assert(styled_view(lines@) =~= before + all);
        }
    }
}

/// Adds the lines of an item.
fn push_item_lines(
    lines: &mut Vec<StyledLine>,
    item: &ConversationItem,
    w: usize,
    spinner: &str,
)
    ensures
        styled_view(final(lines)@) == styled_view(old(lines)@) + item_lines(
            item@,
            w as nat,
            spinner@,
        ),
{
    let ghost before = styled_view(lines@);
    match item {
        ConversationItem::UserMessage { text, images } => {
            push_text(lines, " You", bold_style(Color::Cyan));
            push_images(lines, images);
            push_wrapped(lines, text.as_str(), "  ", w, ink_style(Color::Cyan));
            push_blank(lines);
        },
        ConversationItem::Thinking { text, is_running } => {
            let dim = ink_style(Color::DarkGray);
            let label = if *is_running {
                "  Thinking..."
            } else {
                "  Thought"
            };
            push_text(lines, label, dim);
            push_wrapped(lines, text.as_str(), "  ", w, dim);
            push_blank(lines);
        },
        ConversationItem::AssistantText(text) => {
            push_text(lines, " Assistant", bold_style(Color::Green));
            push_wrapped(lines, text.as_str(), "  ", w, plain_style());
            push_blank(lines);
        },
        ConversationItem::ResponseMeta { tokens, elapsed_secs, tok_per_sec } => {
            let mut meta = "  ".to_string();
            push_decimal(&mut meta, *tokens);
            meta.append(" tokens · ");
            meta.append(tok_per_sec.as_str());
            meta.append(" tok/s · ");
            meta.append(elapsed_secs.as_str());
            meta.append("s");
            push_wrapped(lines, meta.as_str(), "", w, ink_style(Color::DarkGray));
            push_blank(lines);
        },
        ConversationItem::ToolBlock { index, name, args_summary, output, is_running } => {
            push_tool(
                lines,
                name.as_str(),
                args_summary,
                output.as_str(),
                *is_running,
                spinner,
                w,
            );
        },
        ConversationItem::Error(text) => {
            let mut err = " Error: ".to_string();
            err.append(text.as_str());
            push_wrapped(lines, err.as_str(), "", w, ink_style(Color::Red));
            push_blank(lines);
        },
    }
    assert(styled_view(lines@) =~= before + item_lines(item@, w as nat, spinner@));
}

/// Where the conversation is scrolled to when `total` lines meet `visible` rows.
pub open spec fn scrolled_to(v: AppView, total: nat, visible: nat) -> nat {
    let most = if total < visible {
        0
    } else {
        (total - visible) as nat
    };
    if v.auto_scroll || v.scroll_offset > most {
        most
    } else {
        v.scroll_offset
    }
}

/// Which line stands in a row of the conversation: the lines from where it is scrolled
/// to, and blank ones behind the last.
pub open spec fn row_shown(all: Seq<Seq<SpanView>>, from: nat, row: int) -> Seq<SpanView> {
    if from + row < all.len() {
        all[from + row]
    } else {
        blank()
    }
}

/// What the status is.
pub open spec fn status_text(v: AppView) -> Seq<char> {
    if v.pending_cancel {
        "canceling"@
    } else if v.busy {
        "thinking"@
    } else {
        "idle"@
    }
}

/// The model and how many plugins there are.
pub open spec fn title_text(v: AppView) -> Seq<char> {
    if v.plugin_count > 0 {
        " "@ + v.model + " | plugins:"@ + decimal(v.plugin_count)
    } else {
        " "@ + v.model
    }
}

/// The left side of the header: model and status, and which keys there are or how to
/// cancel.
pub open spec fn header_left(v: AppView) -> Seq<SpanView> {
    if v.pending_cancel {
        seq![
            SpanView { text: title_text(v), style: bold_on(Color::White, Color::Red) },
            SpanView {
                text: " | "@ + status_text(v),
                style: on(Color::White, Color::Red),
            },
            SpanView {
                text: "  press Esc again to cancel"@,
                style: on(Color::White, Color::Red),
            },
        ]
    } else {
        seq![
            SpanView { text: title_text(v), style: bold_on(Color::Black, Color::Gray) },
            SpanView {
                text: " | "@ + status_text(v),
                style: on(Color::Black, Color::Gray),
            },
            SpanView { text: " | "@, style: on(Color::Black, Color::Gray) },
            SpanView {
                text: "Shift+Enter newline · Shift+↑↓ scroll · Ctrl+C quit"@,
                style: on(Color::DarkGray, Color::Gray),
            },
        ]
    }
}

/// A number of spaces.
pub open spec fn spaces(n: nat) -> Seq<char> {
    Seq::new(n, |i: int| ' ')
}

/// The token counts of the header.
pub open spec fn header_usage(v: AppView) -> Seq<char> {
    usage_text(v.context_tokens as nat, v.context_limit as nat, v.total_output_tokens as nat)
}

/// The left side of the header, filled up so that the token counts end at `width`.
pub open spec fn header_filled(v: AppView, width: nat) -> Seq<SpanView> {
    let left = header_left(v);
    let taken = spans_width(left) + header_usage(v).len();
    if taken < width {
        left.push(
            SpanView {
                text: spaces((width - taken) as nat),
                style: on(Color::Black, Color::Gray),
            },
        )
    } else {
        left
    }
}

/// The header.
pub open spec fn header_line(v: AppView, width: nat) -> Seq<SpanView> {
    header_filled(v, width).push(
        SpanView {
            text: header_usage(v),
            style: if v.pending_cancel {
                on(Color::White, Color::Red)
            } else {
                on(Color::Black, Color::Gray)
            },
        },
    )
}

/// What is typed, in rows: those that are full or ended, and the last one. A row is full
/// at `w` characters, but a line break that follows a full row makes no empty one.
pub open spec fn typed(s: Seq<char>, w: nat) -> (Seq<Seq<char>>, Seq<char>)
    decreases s.len(),
{
    if s.len() == 0 {
        (Seq::empty(), Seq::empty())
    } else {
        let (done, row) = typed(s.drop_last(), w);
        if s.last() == '\n' {
            (done.push(row), Seq::empty())
        } else if row.len() >= w {
            (done.push(row), seq![s.last()])
        } else {
            (done, row.push(s.last()))
        }
    }
}

/// The rows of what is typed.
pub open spec fn typed_rows(s: Seq<char>, w: nat) -> Seq<Seq<char>> {
    typed(s, w).0.push(typed(s, w).1)
}

/// In which row and column the cursor stands before the character at `at`: where that
/// goes, or would go.
pub open spec fn cursor_place(s: Seq<char>, at: nat, w: nat) -> (nat, nat) {
    let (done, row) = typed(s.take(at as int), w);
    if row.len() >= w && !(at < s.len() && s[at as int] == '\n') {
        (done.len() + 1, 0)
    } else {
        (done.len(), row.len())
    }
}

/// How many columns a width leaves for the input, at least one.
pub open spec fn text_columns(width: nat) -> nat {
    if width < 3 {
        1
    } else {
        (width - 2) as nat
    }
}

/// The lines of the input, each behind the prompt or as far in.
pub open spec fn input_lines(rows: Seq<Seq<char>>) -> Seq<Seq<SpanView>> {
    Seq::new(
        rows.len(),
        |i: int|
            seq![
                SpanView {
                    text: if i == 0 {
                        "> "@
                    } else {
                        "  "@
                    },
                    style: bold(Color::Cyan),
                },
                SpanView { text: rows[i], style: plain() },
            ],
    )
}

/// The line that is shown in place of the input while the agent is busy.
pub open spec fn busy_line(v: AppView, now: u64) -> Seq<SpanView> {
    seq![
        SpanView { text: " "@ + spinner_text(v, now) + " "@, style: bold(Color::Green) },
        SpanView { text: "generating..."@, style: ink(Color::Green) },
        SpanView {
            text: if v.pending_cancel {
                "  press Esc again to cancel"@
            } else {
                "  Esc to cancel"@
            },
            style: ink(Color::DarkGray),
        },
    ]
}

/// The line that names the images which go with the next message.
pub open spec fn attachments_text(v: AppView) -> Seq<char> {
    " [attached: "@ + joined(image_names(v.pending_images), ", "@)
        + "]  Ctrl+D clear | Backspace remove last"@
}

/// How many rows the input pane takes: its border, what is typed and the line of
/// attached images, but no more than twelve.
pub open spec fn pane_height(v: AppView, width: nat) -> nat {
    let inner = if width < 4 {
        0
    } else {
        (width - 4) as nat
    };
    let base = if v.input.len() == 0 || v.busy || inner == 0 {
        3
    } else {
        let lines = typed_rows(v.input, inner).len() as usize as u16;
        if lines > 65533 {
            65535
        } else {
            (lines + 2) as nat
        }
    };
    let all = base + if v.pending_images.len() > 0 {
        1nat
    } else {
        0nat
    };
    if all > 12 {
        12
    } else {
        all
    }
}

/// What the input pane holds below its border.
#[derive(Debug)]
pub struct InputPane {
    /// The line about attached images, above the rest.
    pub attachments: Option<StyledLine>,
    pub lines: Vec<StyledLine>,
    /// Column and row of the cursor within the lines, unless there is none.
    pub cursor: Option<(u16, u16)>,
}

/// Adds a span.
fn push_span(spans: &mut Vec<Span>, text: String, style: Style)
    ensures
        spans_view(final(spans)@) == spans_view(old(spans)@).push(SpanView { text: text@, style }),
{
    spans.push(Span { text, style });
    assert(spans_view(spans@) =~= spans_view(old(spans)@).push(SpanView { text: text@, style }));
}

/// How many characters some spans take, counted up to `limit`.
fn width_up_to(spans: &Vec<Span>, limit: usize) -> (r: usize)
    ensures
        r == if spans_width(spans_view(spans@)) < limit {
            spans_width(spans_view(spans@))
        } else {
            limit as nat
        },
{
    let ghost all = spans_view(spans@);
    let mut total: usize = 0;
    let mut i: usize = 0;
    while i < spans.len()
        invariant
            i <= spans@.len(),
            all == spans_view(spans@),
            total <= limit,
            total == if spans_width(all.take(i as int)) < limit {
                spans_width(all.take(i as int))
            } else {
                limit as nat
            },
        decreases spans@.len() - i,
    {
        let n = spans[i].text.as_str().unicode_len();
        proof {
            assert(all.take(i + 1).drop_last() =~= all.take(i as int));
            assert(all.take(i + 1).last() == spans@[i as int]@);
        }
        total = if n >= limit - total {
            limit
        } else {
            total + n
        };
        i = i + 1;
    }
    assert(all.take(i as int) =~= all);
    total
}

/// A number of spaces.
fn some_spaces(n: usize) -> (r: String)
    ensures
        r@ == spaces(n as nat),
{
    let mut s = String::new();
    let mut i: usize = 0;
    while i < n
        invariant
            i <= n,
            s@ =~= spaces(i as nat),
        decreases n - i,
    {
        s.push(' ');
        i = i + 1;
    }
    s
}

impl App {
    /// The spinner: its frames follow one another while the agent is busy.
    pub fn spinner(&self, now: u64) -> (r: &'static str)
        ensures
            r@ == spinner_text(self@, now),
    {
        match self.busy_since {
            Some(since) => {
                let at = time_since(since, now) / SPINNER_INTERVAL_MS % 10;
                if at == 0 {
                    "⠋"
                } else if at == 1 {
                    "⠙"
                } else if at == 2 {
                    "⠹"
                } else if at == 3 {
                    "⠸"
                } else if at == 4 {
                    "⠼"
                } else if at == 5 {
                    "⠴"
                } else if at == 6 {
                    "⠦"
                } else if at == 7 {
                    "⠧"
                } else if at == 8 {
                    "⠇"
                } else {
                    "⠏"
                }
            },
            None => {
                proof {
                    reveal_strlit("");
                    assert(""@ =~= Seq::empty());
                }
                ""
            },
        }
    }

    /// The lines of the whole conversation.
    pub fn build_lines(&self, width: u16, now: u64) -> (r: Vec<StyledLine>)
        ensures
            styled_view(r@) == conversation_lines(self@, width as nat, now),
    {
        let w = width as usize;
        let spinner = self.spinner(now);
        let ghost items = items_view(self.items@);
        let mut lines: Vec<StyledLine> = Vec::new();
        let mut i: usize = 0;
        assert(styled_view(lines@) =~= Seq::empty());
        while i < self.items.len()
            invariant
                i <= self.items@.len(),
                w == width,
                items == items_view(self.items@),
                spinner@ == spinner_text(self@, now),
                styled_view(lines@) == items_lines(items.take(i as int), w as nat, spinner@),
            decreases self.items@.len() - i,
        {
            push_item_lines(&mut lines, &self.items[i], w, spinner);
            proof {
                assert(items.take(i + 1).drop_last() =~= items.take(i as int));
                assert(items.take(i + 1).last() == self.items@[i as int]@);
            }
            i = i + 1;
        }
        assert(items.take(i as int) =~= items);
        lines
    }

    /// The rows of the conversation that are on the screen. Scrolling stops at its ends.
    pub fn draw_conversation(&mut self, width: u16, height: u16, now: u64) -> (r: Vec<StyledLine>)
        requires
            valid(old(self)@),
        ensures
            valid(final(self)@),
            ({
                let v = old(self)@;
                let all = conversation_lines(v, width as nat, now);
                let from = scrolled_to(v, all.len(), height as nat);
                &&& final(self)@ == (AppView { scroll_offset: from, ..v })
                &&& r@.len() == height
                &&& forall|row: int|
                    0 <= row < height ==> #[trigger] styled_view(r@)[row] == row_shown(
                        all,
                        from,
                        row,
                    )
            }),
    {
        let mut all_lines = self.build_lines(width, now);
        let ghost all = styled_view(all_lines@);
        let total = all_lines.len();
        let visible = height as usize;
        let most = if total < visible {
            0
        } else {
            total - visible
        };
        if self.auto_scroll || self.scroll_offset > most {
            self.scroll_offset = most;
        }
        let from = self.scroll_offset;
        let mut shown = all_lines.split_off(from);
        proof {
            assert(styled_view(shown@) =~= all.skip(from as int));
        }
        shown.truncate(visible);
        let mut row: usize = shown.len();
        assert(forall|k: int|
            0 <= k < row ==> #[trigger] styled_view(shown@)[k] == row_shown(
                all,
                from as nat,
                k,
            ));
        while row < visible
            invariant
                row == shown@.len(),
                row <= visible,
                row < visible ==> from + row >= all.len(),
                forall|k: int|
                    0 <= k < row ==> #[trigger] styled_view(shown@)[k] == row_shown(
                        all,
                        from as nat,
                        k,
                    ),
            decreases visible - row,
        {
            let ghost before = styled_view(shown@);
            push_blank(&mut shown);
            proof {
                assert forall|k: int| 0 <= k < row + 1 implies #[trigger] styled_view(shown@)[k]
                    == row_shown(all, from as nat, k) by {
                    if k < row {
                        assert(styled_view(shown@)[k] == before[k]);
                    }
                }
                assert(styled_view(shown@).len() == before.len() + 1);
            }
            row = row + 1;
        }
        shown
    }

    /// The header.
    pub fn draw_header(&self, width: u16) -> (r: StyledLine)
        ensures
            r@ == header_line(self@, width as nat),
    {
        let mut title = " ".to_string();
        title.append(self.model.as_str());
        if self.plugin_count > 0 {
            title.append(" | plugins:");
            push_decimal(&mut title, self.plugin_count as u64);
        }
        let mut status = " | ".to_string();
        if self.pending_cancel {
            status.append("canceling");
        } else if self.busy {
            status.append("thinking");
        } else {
            status.append("idle");
        }
        let base = Style { fg: Some(Color::Black), bg: Some(Color::Gray), bold: false };
        let warning = Style { fg: Some(Color::White), bg: Some(Color::Red), bold: false };
        let mut spans: Vec<Span> = Vec::new();
        assert(spans_view(spans@) =~= Seq::empty());
        if self.pending_cancel {
            push_span(
                &mut spans,
                title,
                Style { fg: Some(Color::White), bg: Some(Color::Red), bold: true },
            );
            push_span(&mut spans, status, warning);
            push_span(&mut spans, "  press Esc again to cancel".to_string(), warning);
        } else {
            push_span(
                &mut spans,
                title,
                Style { fg: Some(Color::Black), bg: Some(Color::Gray), bold: true },
            );
            push_span(&mut spans, status, base);
            push_span(&mut spans, " | ".to_string(), base);
            push_span(
                &mut spans,
                "Shift+Enter newline · Shift+↑↓ scroll · Ctrl+C quit".to_string(),
                Style { fg: Some(Color::DarkGray), bg: Some(Color::Gray), bold: false },
            );
        }
        assert(spans_view(spans@) =~= header_left(self@));
        let usage = usage_label(self.context_tokens, self.context_limit, self.total_output_tokens);
        let usage_width = usage.as_str().unicode_len();
        let all = width as usize;
        let room = if usage_width > all {
            0
        } else {
            all - usage_width
        };
        let taken = width_up_to(&spans, room);
        if taken < room {
            push_span(&mut spans, some_spaces(room - taken), base);
        }
        assert(spans_view(spans@) == header_filled(self@, width as nat));
        let usage_style = if self.pending_cancel {
            warning
        } else {
            base
        };
        push_span(&mut spans, usage, usage_style);
        StyledLine { spans }
    }

    /// What is typed, in rows of at most `text_width` characters, with the row and the
    /// column of the cursor.
    pub fn wrap_input_lines(&self, text_width: usize) -> (r: (Vec<String>, u16, usize))
        requires
            valid(self@),
        ensures
            ({
                let w = if text_width == 0 {
                    1
                } else {
                    text_width as nat
                };
                &&& views(r.0@) == typed_rows(self@.input, w)
                &&& r.1 == cursor_place(self@.input, self@.cursor, w).0 as usize as u16
                &&& r.2 == cursor_place(self@.input, self@.cursor, w).1
            }),
    {
        let w = if text_width == 0 {
            1
        } else {
            text_width
        };
        let ghost s = self.input@;
        let n = self.input.len();
        let mut rows: Vec<String> = Vec::new();
        let mut row: Vec<char> = Vec::new();
        let mut place: (usize, usize) = (0, 0);
        let mut i: usize = 0;
        assert(views(rows@) =~= Seq::empty());
        assert(row@ =~= Seq::empty());
        while i < n
            invariant
                i <= n == s.len(),
                s == self.input@,
                w > 0,
                self.cursor <= n,
                (views(rows@), row@) == typed(s.take(i as int), w as nat),
                self.cursor < i ==> (place.0 as nat, place.1 as nat) == cursor_place(
                    s,
                    self.cursor as nat,
                    w as nat,
                ),
                rows@.len() + row@.len() <= i,
            decreases n - i,
        {
            let ch = self.input[i];
            let ghost before = (views(rows@), row@);
            proof {
                assert(s.take(i + 1).drop_last() =~= s.take(i as int));
                assert(s.take(i + 1).last() == ch);
            }
            if ch != '\n' && row.len() >= w {
                push_row(&mut rows, &row);
                row = Vec::new();
                assert(row@ =~= Seq::empty());
            }
            if i == self.cursor {
                place = (rows.len(), row.len());
                assert(rows@.len() == views(rows@).len());
            }
            if ch == '\n' {
                push_row(&mut rows, &row);
                row = Vec::new();
                assert(row@ =~= Seq::empty());
            } else {
                row.push(ch);
            }
            proof {
                assert(rows@.len() == views(rows@).len());
                let next = typed(s.take(i + 1), w as nat);
                assert(row@ =~= next.1);
            }
            i = i + 1;
        }
        assert(s.take(i as int) =~= s);
        if self.cursor == n {
            assert(rows@.len() == views(rows@).len());
            if row.len() >= w {
                place = (rows.len() + 1, 0);
            } else {
                place = (rows.len(), row.len());
            }
        }
        push_row(&mut rows, &row);
        (rows, place.0 as u16, place.1)
    }

    /// How many rows the input pane takes.
    pub fn input_height(&self, terminal_width: u16) -> (r: u16)
        requires
            valid(self@),
        ensures
            r == pane_height(self@, terminal_width as nat),
    {
        let inner: usize = if terminal_width < 4 {
            0
        } else {
            terminal_width as usize - 4
        };
        let base: u16 = if self.input.len() == 0 || self.busy || inner == 0 {
            3
        } else {
            let (rows, _, _) = self.wrap_input_lines(inner);
            assert(rows@.len() == views(rows@).len());
            let lines = rows.len() as u16;
            if lines > 65533 {
                65535
            } else {
                lines + 2
            }
        };
        if self.pending_images.len() > 0 {
            if base >= 12 {
                12
            } else {
                base + 1
            }
        } else if base > 12 {
            12
        } else {
            base
        }
    }

    /// The input pane.
    pub fn draw_input(&self, width: u16, now: u64) -> (r: InputPane)
        requires
            valid(self@),
        ensures
            if self@.pending_images.len() > 0 && !self@.busy {
                r.attachments matches Some(line) && line@ == one_span(
                    attachments_text(self@),
                    ink(Color::Magenta),
                )
            } else {
                r.attachments is None
            },
            if self@.busy {
                styled_view(r.lines@) == seq![busy_line(self@, now)] && r.cursor is None
            } else {
                let w = text_columns(width as nat);
                let place = cursor_place(self@.input, self@.cursor, w);
                &&& styled_view(r.lines@) == input_lines(typed_rows(self@.input, w))
                &&& r.cursor == Some(((2 + place.1) as usize as u16, place.0 as usize as u16))
            },
    {
        let attachments = if self.pending_images.len() > 0 && !self.busy {
            Some(self.attachments_line())
        } else {
            None
        };
        let mut lines: Vec<StyledLine> = Vec::new();
        if self.busy {
            push_line(&mut lines, self.generating_line(now));
            assert(styled_view(lines@) =~= seq![busy_line(self@, now)]);
            return InputPane { attachments, lines, cursor: None };
        }
        let columns: usize = if width < 3 {
            1
        } else {
            width as usize - 2
        };
        let (rows, row, column) = self.wrap_input_lines(columns);
        let ghost all = input_lines(views(rows@));
        let prompt = bold_style(Color::Cyan);
        let mut i: usize = 0;
        while i < rows.len()
            invariant
                i <= rows@.len(),
                all == input_lines(views(rows@)),
                prompt == bold(Color::Cyan),
                styled_view(lines@) =~= all.take(i as int),
            decreases rows@.len() - i,
        {
            let mark = if i == 0 {
                "> "
            } else {
                "  "
            };
            let mut spans: Vec<Span> = Vec::new();
            push_span(&mut spans, mark.to_string(), prompt);
            push_span(&mut spans, rows[i].clone(), plain_style());
            let line = StyledLine { spans };
            proof {
                assert(line@ =~= all[i as int]);
                assert(all.take(i + 1) =~= all.take(i as int).push(line@));
            }
            push_line(&mut lines, line);
            i = i + 1;
        }
        proof {
            lemma_column(self@.input, self@.cursor, columns as nat);
        }
        InputPane { attachments, lines, cursor: Some(((2 + column) as u16, row)) }
    }

    fn attachments_line(&self) -> (r: StyledLine)
        ensures
            r@ == one_span(attachments_text(self@), ink(Color::Magenta)),
    {
        let ghost all = image_names(images_view(self.pending_images@));
        let mut names: Vec<String> = Vec::new();
        let mut i: usize = 0;
        while i < self.pending_images.len()
            invariant
                i <= self.pending_images@.len(),
                all == image_names(images_view(self.pending_images@)),
                views(names@) =~= all.take(i as int),
            decreases self.pending_images@.len() - i,
        {
            let ghost before = names@;
            let name = self.pending_images[i].filename.clone();
            names.push(name);
            proof {
                assert(views(names@) =~= views(before).push(name@));
                assert(all[i as int] == name@);
                assert(all.take(i + 1) =~= all.take(i as int).push(name@));
            }
            i = i + 1;
        }
        assert(views(names@) =~= all);
        let mut label = " [attached: ".to_string();
        label.append(join(&names, ", ").as_str());
        label.append("]  Ctrl+D clear | Backspace remove last");
        line_of(label, ink_style(Color::Magenta))
    }

    fn generating_line(&self, now: u64) -> (r: StyledLine)
        ensures
            r@ == busy_line(self@, now),
    {
        let mut mark = " ".to_string();
        mark.append(self.spinner(now));
        mark.append(" ");
        let hint = if self.pending_cancel {
            "  press Esc again to cancel"
        } else {
            "  Esc to cancel"
        };
        let mut spans: Vec<Span> = Vec::new();
        push_span(&mut spans, mark, bold_style(Color::Green));
        push_span(&mut spans, "generating...".to_string(), ink_style(Color::Green));
        push_span(&mut spans, hint.to_string(), ink_style(Color::DarkGray));
        let r = StyledLine { spans };
        assert(r@ =~= busy_line(self@, now));
        r
    }
}

/// Adds a row.
fn push_row(rows: &mut Vec<String>, row: &Vec<char>)
    ensures
        views(final(rows)@) == views(old(rows)@).push(row@),
{
    let text = string_of(row, 0, row.len());
    assert(text@ =~= row@);
    rows.push(text);
    assert(views(rows@) =~= views(old(rows)@).push(row@));
}

/// A row holds no more than fits.
proof fn lemma_typed(s: Seq<char>, w: nat)
    requires
        w > 0,
    ensures
        typed(s, w).1.len() <= w,
        forall|i: int|
            0 <= i < typed(s, w).0.len() ==> (#[trigger] typed(s, w).0[i]).len() <= w,
        typed(s, w).0.len() <= s.len(),
    decreases s.len(),
{
    if s.len() > 0 {
        lemma_typed(s.drop_last(), w);
        let before = typed(s.drop_last(), w);
        assert forall|i: int| 0 <= i < typed(s, w).0.len() implies (#[trigger] typed(
            s,
            w,
        ).0[i]).len() <= w by {
            if i < before.0.len() {
                assert(typed(s, w).0[i] == before.0[i]);
            }
        }
    }
}

/// The cursor stands within its row.
proof fn lemma_column(s: Seq<char>, at: nat, w: nat)
    requires
        w > 0,
        at <= s.len(),
    ensures
        cursor_place(s, at, w).1 <= w,
{
    lemma_typed(s.take(at as int), w);
}

/// The header fills its line exactly where it is not too long for it.
pub proof fn the_header_fills_its_line(v: AppView, width: nat)
    requires
        spans_width(header_left(v)) + header_usage(v).len() <= width,
    ensures
        spans_width(header_line(v, width)) == width,
{
    let filled = header_filled(v, width);
    assert(header_line(v, width).drop_last() =~= filled);
    let left = header_left(v);
    if spans_width(left) + header_usage(v).len() < width {
        assert(filled.drop_last() =~= left);
        assert(spans_width(filled) == spans_width(left) + filled.last().text.len());
    }
    assert(spans_width(filled) + header_usage(v).len() == width);
    assert(spans_width(header_line(v, width)) == spans_width(filled) + header_usage(v).len());
}

/// No row of what is typed is wider than asked.
pub proof fn typed_rows_fit(s: Seq<char>, w: nat, i: int)
    requires
        w > 0,
        0 <= i < typed_rows(s, w).len(),
    ensures
        typed_rows(s, w)[i].len() <= w,
{
    lemma_typed(s, w);
}

proof fn lemma_flattened_push(pieces: Seq<Seq<char>>, last: Seq<char>)
    ensures
        flattened(pieces.push(last)) == flattened(pieces) + last,
    decreases pieces.len(),
{
    let more = pieces.push(last);
    if pieces.len() == 0 {
        assert(more.drop_first() =~= Seq::empty());
        assert(flattened(more) =~= flattened(pieces) + last) by {
            assert(flattened(more.drop_first()) =~= Seq::empty());
        }
    } else {
        assert(more.drop_first() =~= pieces.drop_first().push(last));
        lemma_flattened_push(pieces.drop_first(), last);
        assert(flattened(more) =~= flattened(pieces) + last);
    }
}

/// Nothing that is typed is lost: its rows, one after another, hold all of it but the
/// line breaks.
pub proof fn typed_rows_hold_everything(s: Seq<char>, w: nat)
    ensures
        flattened(typed_rows(s, w)) == s.filter(|c: char| c != '\n'),
    decreases s.len(),
{
    let keep = |c: char| c != '\n';
    reveal(Seq::filter);
    let (done, row) = typed(s, w);
    lemma_flattened_push(done, row);
    if s.len() == 0 {
        assert(flattened(typed_rows(s, w)) =~= s.filter(keep));
    } else {
        let (before, last) = typed(s.drop_last(), w);
        typed_rows_hold_everything(s.drop_last(), w);
        lemma_flattened_push(before, last);
        if s.last() == '\n' {
            assert(flattened(done) + row =~= flattened(before.push(last)));
        } else if last.len() >= w {
            assert(flattened(done) + row =~= (flattened(before) + last).push(s.last()));
        } else {
            assert(flattened(done) + row =~= (flattened(before) + last).push(s.last()));
        }
    }
}

/// Rows keep their places as more is typed, and what stands in them stays.
proof fn lemma_typed_grows(s: Seq<char>, at: nat, w: nat)
    requires
        at <= s.len(),
    ensures
        ({
            let part = typed(s.take(at as int), w);
            let rows = typed_rows(s, w);
            &&& part.0.len() < rows.len()
            &&& part.1.len() <= rows[part.0.len() as int].len()
        }),
    decreases s.len(),
{
    if at == s.len() {
        assert(s.take(at as int) =~= s);
    } else {
        lemma_typed_grows(s.drop_last(), at, w);
        assert(s.drop_last().take(at as int) =~= s.take(at as int));
        let before = typed_rows(s.drop_last(), w);
        let rows = typed_rows(s, w);
        let k = typed(s.take(at as int), w).0.len() as int;
        if k < before.len() - 1 {
            assert(rows[k] == before[k]);
        }
    }
}

/// The cursor is shown in a row of what is typed, at most at its end, or at the start of
/// the row behind the last.
pub proof fn the_cursor_stands_in_the_input(s: Seq<char>, at: nat, w: nat)
    requires
        at <= s.len(),
    ensures
        ({
            let (row, column) = cursor_place(s, at, w);
            let rows = typed_rows(s, w);
            ||| row < rows.len() && column <= rows[row as int].len()
            ||| row == rows.len() && column == 0
        }),
{
    lemma_typed_grows(s, at, w);
}

/// Scrolling stays within the conversation: no row is left empty while there are lines
/// above the screen, and one that follows the conversation shows its last line.
pub proof fn scrolling_stays_within(v: AppView, total: nat, visible: nat)
    ensures
        scrolled_to(v, total, visible) > 0 ==> scrolled_to(v, total, visible) + visible <= total,
        v.auto_scroll ==> scrolled_to(v, total, visible) + visible >= total,
{
}

/// The input pane never takes more than twelve rows.
pub proof fn the_pane_is_low(v: AppView, width: nat)
    ensures
        pane_height(v, width) <= 12,
{
}

} // verus!
