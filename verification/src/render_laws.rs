//! What the screen shows of the conversation, the input and the state.

use vstd::prelude::*;
use crate::conversation::ItemView;
use crate::number::decimal;
use crate::text::joined;
use crate::ui::render::{
    attachments_text, busy_line, conversation_lines, cursor_place, frame, header_filled,
    header_left, header_line, header_usage, input_lines, item_lines, items_lines, pane_height,
    row_shown, scrolled_to, spans_width, spinner_text, text_columns, typed, typed_rows, Color,
    SpanView, Style,
};
use crate::ui::{image_names, AppView};
use crate::tokens::usage_text;
use crate::wrap::wrapped;

verus! {

broadcast use vstd::seq::group_seq_axioms;

/// A color in the terminal's weight, on its background.
pub open spec fn colored(color: Color) -> Style {
    Style { fg: Some(color), bg: None, bold: false }
}

/// A color in bold.
pub open spec fn strong(color: Color) -> Style {
    Style { fg: Some(color), bg: None, bold: true }
}

/// Whether a line holds one text in one style.
pub open spec fn holds(line: Seq<SpanView>, text: Seq<char>, style: Style) -> bool {
    line.len() == 1 && line[0] == (SpanView { text, style })
}

/// Whether rows stand one after another among lines, from an index on.
pub open spec fn stand_at(
    lines: Seq<Seq<SpanView>>,
    from: int,
    rows: Seq<Seq<char>>,
    style: Style,
) -> bool {
    &&& from + rows.len() <= lines.len()
    &&& forall|i: int| 0 <= i < rows.len() ==> holds(#[trigger] lines[from + i], rows[i], style)
}

/// Texts are shown under a heading, each in all its rows, with a blank line behind them:
/// a message of the user with the names of its images, the thinking, and what the
/// assistant says.
pub proof fn texts_are_shown_under_their_heading(item: ItemView, w: nat, spinner: Seq<char>)
    ensures
        ({
            let lines = item_lines(item, w, spinner);
            let n = lines.len() as int;
            &&& item matches ItemView::UserMessage { text, images } ==> {
                let rows = wrapped(text, "  "@, w);
                &&& n == images.len() + rows.len() + 2
                &&& holds(lines[0], " You"@, strong(Color::Cyan))
                &&& forall|i: int|
                    0 <= i < images.len() ==> holds(
                        #[trigger] lines[1 + i],
                        "  [img: "@ + images[i] + "]"@,
                        colored(Color::Magenta),
                    )
                &&& stand_at(lines, 1 + images.len() as int, rows, colored(Color::Cyan))
            }
            &&& item matches ItemView::Thinking { text, is_running } ==> {
                let rows = wrapped(text, "  "@, w);
                &&& n == rows.len() + 2
                &&& holds(
                    lines[0],
                    if is_running {
                        "  Thinking..."@
                    } else {
                        "  Thought"@
                    },
                    colored(Color::DarkGray),
                )
                &&& stand_at(lines, 1, rows, colored(Color::DarkGray))
            }
            &&& item matches ItemView::AssistantText(text) ==> {
                let rows = wrapped(text, "  "@, w);
                &&& n == rows.len() + 2
                &&& holds(lines[0], " Assistant"@, strong(Color::Green))
                &&& stand_at(lines, 1, rows, (Style { fg: None, bg: None, bold: false }))
            }
            &&& n > 0
            &&& lines[n - 1].len() == 0
        }),
{
}

/// Errors and the counts of a response are shown in all their rows, without a heading.
pub proof fn notes_are_shown_in_their_rows(item: ItemView, w: nat, spinner: Seq<char>)
    ensures
        ({
            let lines = item_lines(item, w, spinner);
            let n = lines.len() as int;
            &&& item matches ItemView::Error(text) ==> {
                let rows = wrapped(" Error: "@ + text, ""@, w);
                n == rows.len() + 1 && stand_at(lines, 0, rows, colored(Color::Red))
            }
            &&& item matches ItemView::ResponseMeta { tokens, elapsed_secs, tok_per_sec } ==> {
                let rows = wrapped(
                    "  "@ + decimal(tokens as nat) + " tokens · "@ + tok_per_sec + " tok/s · "@
                        + elapsed_secs + "s"@,
                    ""@,
                    w,
                );
                n == rows.len() + 1 && stand_at(lines, 0, rows, colored(Color::DarkGray))
            }
        }),
{
}

/// A tool is shown by its name, with the spinner while it runs, then its arguments where
/// there are any, all of its output, and an end below them.
pub proof fn tools_are_shown_with_all_they_say(
    name: Seq<char>,
    args: Option<Seq<char>>,
    output: Seq<char>,
    is_running: bool,
    index: usize,
    w: nat,
    spinner: Seq<char>,
)
    ensures
        ({
            let item = ItemView::ToolBlock { index, name, args_summary: args, output, is_running };
            let lines = item_lines(item, w, spinner);
            let n = lines.len() as int;
            let has_args = args matches Some(text) && text.len() > 0;
            let arg_rows = if has_args {
                wrapped("args: "@ + args->0, " │ "@, w)
            } else {
                Seq::empty()
            };
            let rows = wrapped(output, " │ "@, w);
            let has_end = has_args || output.len() > 0;
            &&& n == 1 + arg_rows.len() + rows.len() + (if has_end {
                1int
            } else {
                0
            }) + 1
            &&& holds(
                lines[0],
                " ["@ + name + "]"@ + (if is_running {
                    " "@ + spinner + " running..."@
                } else {
                    Seq::empty()
                }),
                strong(Color::Yellow),
            )
            &&& stand_at(lines, 1, arg_rows, colored(Color::DarkGray))
            &&& stand_at(lines, 1 + arg_rows.len() as int, rows, colored(Color::DarkGray))
            &&& has_end ==> holds(lines[n - 2], " └"@, colored(Color::DarkGray))
            &&& lines[n - 1].len() == 0
        }),
{
    assert(" ["@ + name + "]"@ + (" "@ + spinner + " running..."@) =~= " ["@ + name + "]"@ + " "@
        + spinner + " running..."@);
    assert(" ["@ + name + "]"@ + Seq::<char>::empty() =~= " ["@ + name + "]"@);
}

/// The conversation is shown item by item: the lines of some items and of others behind
/// them stand one after another.
pub proof fn items_are_shown_in_order(
    a: Seq<ItemView>,
    b: Seq<ItemView>,
    item: ItemView,
    w: nat,
    spinner: Seq<char>,
)
    ensures
        items_lines(a + b, w, spinner) == items_lines(a, w, spinner) + items_lines(b, w, spinner),
        items_lines(seq![item], w, spinner) == item_lines(item, w, spinner),
        items_lines(Seq::empty(), w, spinner).len() == 0,
    decreases b.len(),
{
    let one = seq![item];
    assert(one.drop_last() =~= Seq::empty());
    assert(items_lines(one.drop_last(), w, spinner) + item_lines(item, w, spinner) =~= item_lines(
        item,
        w,
        spinner,
    ));
    if b.len() == 0 {
        assert(a + b =~= a);
        assert(items_lines(a, w, spinner) + items_lines(b, w, spinner) =~= items_lines(
            a,
            w,
            spinner,
        ));
    } else {
        items_are_shown_in_order(a, b.drop_last(), item, w, spinner);
        assert((a + b).drop_last() =~= a + b.drop_last());
        assert((a + b).last() == b.last());
        assert(items_lines(a + b, w, spinner) =~= items_lines(a, w, spinner) + items_lines(
            b,
            w,
            spinner,
        ));
    }
}

/// The whole conversation is shown, with the spinner of the time.
pub proof fn the_whole_conversation_is_shown(v: AppView, w: nat, now: u64)
    ensures
        conversation_lines(v, w, now) == items_lines(v.items, w, spinner_text(v, now)),
{
}

/// The spinner goes on by one of its ten frames every eighty milliseconds and starts over
/// after the last; there is none while the agent is not busy.
pub proof fn the_spinner_goes_round(v: AppView, since: u64, steps: nat, part: nat, now: u64)
    requires
        v.busy_since == Some(since),
        part < 80,
        now == since + 80 * steps + part,
    ensures
        spinner_text(v, now) == frame((steps % 10) as int),
        forall|idle: AppView|
            idle.busy_since is None ==> (#[trigger] spinner_text(idle, now)).len() == 0,
{
    assert((now - since) / 80 == steps);
}

/// The frames of the spinner are ten different characters.
pub proof fn the_frames_differ(i: int, j: int)
    requires
        0 <= i < j < 10,
    ensures
        frame(i).len() == 1,
        frame(j).len() == 1,
        frame(i) != frame(j),
{
    reveal_strlit("⠋");
    reveal_strlit("⠙");
    reveal_strlit("⠹");
    reveal_strlit("⠸");
    reveal_strlit("⠼");
    reveal_strlit("⠴");
    reveal_strlit("⠦");
    reveal_strlit("⠧");
    reveal_strlit("⠇");
    reveal_strlit("⠏");
    assert(frame(i)[0] != frame(j)[0]);
}

/// Where all lines fit, they are shown from the first on. Else one that follows the
/// conversation stands at its end, and one that was scrolled stays where it was scrolled
/// to, as long as that leaves no row empty.
pub proof fn the_conversation_stays_where_it_was_scrolled_to(v: AppView, total: nat, visible: nat)
    ensures
        total <= visible ==> scrolled_to(v, total, visible) == 0,
        total > visible && v.auto_scroll ==> scrolled_to(v, total, visible) == total - visible,
        total > visible && !v.auto_scroll && v.scroll_offset <= total - visible ==> scrolled_to(
            v,
            total,
            visible,
        ) == v.scroll_offset,
        total > visible && !v.auto_scroll && v.scroll_offset > total - visible ==> scrolled_to(
            v,
            total,
            visible,
        ) == total - visible,
{
}

/// The rows show the lines from the first one shown on, in order, and nothing behind the
/// last.
pub proof fn rows_show_the_lines_in_order(all: Seq<Seq<SpanView>>, from: nat, row: int)
    requires
        0 <= row,
    ensures
        from + row < all.len() ==> row_shown(all, from, row) == all[from + row],
        from + row >= all.len() ==> row_shown(all, from, row).len() == 0,
{
}

/// The header names the model, how many plugins there are if any, the status, and at its
/// end the counts of tokens. It turns red while Esc waits for a second one, and only then
/// says so.
pub proof fn the_header_tells_the_state(v: AppView, width: nat)
    ensures
        ({
            let line = header_line(v, width);
            let color = if v.pending_cancel {
                Color::Red
            } else {
                Color::Gray
            };
            let ink = if v.pending_cancel {
                Color::White
            } else {
                Color::Black
            };
            &&& line.len() >= 4
            &&& line[0].text == " "@ + v.model + (if v.plugin_count > 0 {
                " | plugins:"@ + decimal(v.plugin_count)
            } else {
                Seq::empty()
            })
            &&& line[0].style == (Style { fg: Some(ink), bg: Some(color), bold: true })
            &&& line[1].text == " | "@ + (if v.pending_cancel {
                "canceling"@
            } else if v.busy {
                "thinking"@
            } else {
                "idle"@
            })
            &&& line[1].style == (Style { fg: Some(ink), bg: Some(color), bold: false })
            &&& if v.pending_cancel {
                line[2].text == "  press Esc again to cancel"@ && line[2].style == line[1].style
            } else {
                line[2].text == " | "@ && line[2].style == line[1].style && line[3].text
                    == "Shift+Enter newline · Shift+↑↓ scroll · Ctrl+C quit"@ && line[3].style
                    == (Style { fg: Some(Color::DarkGray), bg: Some(color), bold: false })
            }
            &&& line.last().text == usage_text(
                v.context_tokens as nat,
                v.context_limit as nat,
                v.total_output_tokens as nat,
            )
            &&& line.last().style == (Style { fg: Some(ink), bg: Some(color), bold: false })
        }),
{
    let left = header_left(v);
    let filled = header_filled(v, width);
    let line = header_line(v, width);
    assert(" "@ + v.model + (" | plugins:"@ + decimal(v.plugin_count)) =~= " "@ + v.model
        + " | plugins:"@ + decimal(v.plugin_count));
    assert(" "@ + v.model + Seq::<char>::empty() =~= " "@ + v.model);
    assert(forall|i: int| 0 <= i < left.len() ==> filled[i] == #[trigger] left[i]);
    assert(forall|i: int| 0 <= i < filled.len() ==> line[i] == #[trigger] filled[i]);
    assert(left[0] == line[0] && left[1] == line[1] && left[2] == line[2]);
}

/// Where the counts do not fill the line, nothing but spaces stand between the left side
/// and them.
pub proof fn the_header_is_filled_with_spaces(v: AppView, width: nat)
    ensures
        ({
            let line = header_line(v, width);
            let left = header_left(v);
            let taken = spans_width(left) + header_usage(v).len();
            &&& left.is_prefix_of(line)
            &&& taken >= width ==> line.len() == left.len() + 1
            &&& taken < width ==> line.len() == left.len() + 2
            &&& taken < width ==> {
                let span = line[left.len() as int];
                &&& span.text.len() == width - taken
                &&& forall|i: int| 0 <= i < span.text.len() ==> #[trigger] span.text[i] == ' '
                &&& span.style == (Style {
                    fg: Some(Color::Black),
                    bg: Some(Color::Gray),
                    bold: false,
                })
            }
        }),
{
    let line = header_line(v, width);
    let left = header_left(v);
    assert(line.take(left.len() as int) =~= left);
}

/// What is typed is shown character by character: a line break starts a row, a character
/// goes to the end of the last row, or starts one where that row is full.
pub proof fn typed_characters_go_to_the_last_row(s: Seq<char>, c: char, w: nat)
    ensures
        typed_rows(Seq::empty(), w) == seq![Seq::<char>::empty()],
        c == '\n' ==> typed_rows(s.push(c), w) == typed_rows(s, w).push(Seq::empty()),
        c != '\n' && typed_rows(s, w).last().len() >= w ==> typed_rows(s.push(c), w) == typed_rows(
            s,
            w,
        ).push(seq![c]),
        c != '\n' && typed_rows(s, w).last().len() < w ==> typed_rows(s.push(c), w) == typed_rows(
            s,
            w,
        ).drop_last().push(typed_rows(s, w).last().push(c)),
{
    assert(typed_rows(Seq::empty(), w) =~= seq![Seq::<char>::empty()]);
    assert(s.push(c).drop_last() =~= s);
    assert(typed_rows(s, w).drop_last() =~= typed(s, w).0);
}

/// Rows that are full or ended stay, and the last one only grows, as more is typed.
proof fn lemma_rows_stay(s: Seq<char>, at: nat, w: nat)
    requires
        at <= s.len(),
    ensures
        ({
            let part = typed(s.take(at as int), w);
            let rows = typed_rows(s, w);
            &&& part.0.len() < rows.len()
            &&& forall|i: int| 0 <= i < part.0.len() ==> #[trigger] rows[i] == part.0[i]
            &&& part.1.is_prefix_of(rows[part.0.len() as int])
        }),
    decreases s.len(),
{
    let part = typed(s.take(at as int), w);
    let rows = typed_rows(s, w);
    if at == s.len() {
        assert(s.take(at as int) =~= s);
        assert(part.1.take(part.1.len() as int) =~= part.1);
    } else {
        let fewer = s.drop_last();
        lemma_rows_stay(fewer, at, w);
        assert(fewer.take(at as int) =~= s.take(at as int));
        let before = typed_rows(fewer, w);
        let k = part.0.len() as int;
        assert forall|i: int| 0 <= i < part.0.len() implies #[trigger] rows[i] == part.0[i] by {
            assert(rows[i] == before[i]);
        }
        if k < before.len() - 1 {
            assert(rows[k] == before[k]);
        } else {
            assert(before[k].is_prefix_of(rows[k])) by {
                assert(rows[k].take(before[k].len() as int) =~= before[k]);
            }
            assert(rows[k].take(part.1.len() as int) =~= before[k].take(part.1.len() as int));
        }
    }
}

/// The cursor stands on the character behind it: at its place in the rows stands the
/// character that comes next, or the end of the row where that is a line break.
pub proof fn the_cursor_stands_on_the_next_character(s: Seq<char>, at: nat, w: nat)
    requires
        at < s.len(),
        w > 0,
    ensures
        ({
            let (row, column) = cursor_place(s, at, w);
            let rows = typed_rows(s, w);
            &&& row < rows.len()
            &&& s[at as int] != '\n' ==> column < rows[row as int].len() && rows[row as int][
            column as int] == s[at as int]
            &&& s[at as int] == '\n' ==> column == rows[row as int].len()
        }),
{
    let next = s.take(at as int + 1);
    let part = typed(s.take(at as int), w);
    assert(next.drop_last() =~= s.take(at as int));
    assert(next.last() == s[at as int]);
    lemma_rows_stay(s, (at + 1) as nat, w);
    let grown = typed(next, w);
    let rows = typed_rows(s, w);
    let (row, column) = cursor_place(s, at, w);
    if s[at as int] == '\n' {
        assert(rows[row as int] == grown.0[row as int]);
    } else {
        let k = grown.0.len() as int;
        assert(grown.1 =~= rows[k].take(grown.1.len() as int));
        assert(grown.1[column as int] == s[at as int]);
    }
}

/// At the end of what is typed the cursor stands where the next character would go.
pub proof fn the_cursor_stands_where_typing_goes(s: Seq<char>, c: char, w: nat)
    requires
        c != '\n',
        w > 0,
    ensures
        cursor_place(s, s.len(), w) == cursor_place(s.push(c), s.len(), w),
{
    assert(s.take(s.len() as int) =~= s);
    assert(s.push(c).take(s.len() as int) =~= s);
}

/// The input takes all columns but the two of its prompt, and at least one. Its first row
/// stands behind the prompt, and the others as far in.
pub proof fn the_input_stands_behind_its_prompt(rows: Seq<Seq<char>>, width: nat)
    ensures
        width >= 3 ==> text_columns(width) == width - 2,
        width < 3 ==> text_columns(width) == 1,
        input_lines(rows).len() == rows.len(),
        forall|i: int|
            0 <= i < rows.len() ==> (#[trigger] input_lines(rows)[i]).len() == 2 && input_lines(
                rows,
            )[i][0] == (SpanView {
                text: if i == 0 {
                    "> "@
                } else {
                    "  "@
                },
                style: strong(Color::Cyan),
            }) && input_lines(rows)[i][1] == (SpanView {
                text: rows[i],
                style: (Style { fg: None, bg: None, bold: false }),
            }),
{
}

/// While the agent is busy the spinner turns in place of the input, and it is said how to
/// cancel.
pub proof fn the_busy_line_says_how_to_cancel(v: AppView, now: u64)
    ensures
        busy_line(v, now).len() == 3,
        busy_line(v, now)[0] == (SpanView {
            text: " "@ + spinner_text(v, now) + " "@,
            style: strong(Color::Green),
        }),
        busy_line(v, now)[1] == (SpanView {
            text: "generating..."@,
            style: colored(Color::Green),
        }),
        busy_line(v, now)[2] == (SpanView {
            text: if v.pending_cancel {
                "  press Esc again to cancel"@
            } else {
                "  Esc to cancel"@
            },
            style: colored(Color::DarkGray),
        }),
{
}

/// All attached images are named, with commas between them.
pub proof fn attached_images_are_named(v: AppView)
    ensures
        attachments_text(v) == " [attached: "@ + joined(image_names(v.pending_images), ", "@)
            + "]  Ctrl+D clear | Backspace remove last"@,
{
}

/// The input pane takes a row for each typed row, two for its border and one where images
/// are attached, up to twelve. While the agent is busy, or nothing is typed, or there is
/// no room to type, one row stands for what is typed.
pub proof fn the_pane_grows_with_the_input(v: AppView, width: nat)
    requires
        width > 4 ==> typed_rows(v.input, (width - 4) as nat).len() <= 65533,
    ensures
        ({
            let typed_in = v.input.len() > 0 && !v.busy && width > 4;
            let lines = if typed_in {
                typed_rows(v.input, (width - 4) as nat).len() as int
            } else {
                1
            };
            let all = lines + 2 + (if v.pending_images.len() > 0 {
                1int
            } else {
                0
            });
            &&& all <= 12 ==> pane_height(v, width) == all
            &&& all > 12 ==> pane_height(v, width) == 12
        }),
{
}

/// The width of a line is that of its texts together.
pub proof fn widths_add_up(spans: Seq<SpanView>, span: SpanView)
    ensures
        spans_width(Seq::empty()) == 0,
        spans_width(spans.push(span)) == spans_width(spans) + span.text.len(),
{
    assert(spans.push(span).drop_last() =~= spans);
}

} // verus!
