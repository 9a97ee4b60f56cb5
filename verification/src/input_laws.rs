//! What the keys do to the input, and what else they do.

use vstd::prelude::*;
use crate::base64::base64;
use crate::conversation::ItemView;
use crate::image::{media_type, names_image, path_in};
use crate::text::{is_white_space, trimmed_end};
use crate::text_laws::{is_blank, lemma_trimmed_end};
use crate::ui::{
    after_image, after_key, after_paste, after_text_paste, after_tick, image_names, key_outcome,
    last_word_at, paste_step, valid, with_text, AppView, ImageView, Key, KeyCode, KeyOutcomeView,
    PasteStepView,
};

verus! {

broadcast use vstd::seq::group_seq_axioms;

/// The input before the cursor.
pub open spec fn before(v: AppView) -> Seq<char> {
    v.input.take(v.cursor as int)
}

/// The input behind the cursor.
pub open spec fn behind(v: AppView) -> Seq<char> {
    v.input.skip(v.cursor as int)
}

/// Whether two states differ in nothing but the input and the cursor in it.
pub open spec fn only_input_differs(a: AppView, b: AppView) -> bool {
    b == (AppView { input: b.input, cursor: b.cursor, ..a })
}

/// Whether two states differ in nothing but the images that go with the next message.
pub open spec fn only_images_differ(a: AppView, b: AppView) -> bool {
    b == (AppView { pending_images: b.pending_images, ..a })
}

/// Whether a key event is one that the input takes: a key that goes down while the agent
/// is not busy.
pub open spec fn is_taken(v: AppView, key: Key) -> bool {
    valid(v) && !v.busy && key.pressed
}

/// Whether a key is a character with the control key.
pub open spec fn is_control(key: Key, ch: char) -> bool {
    key.code == KeyCode::Char(ch) && key.ctrl
}

/// Text goes in at the cursor, whatever it is, and the cursor stands behind it.
pub proof fn texts_go_in_at_the_cursor(v: AppView, text: Seq<char>)
    requires
        valid(v),
    ensures
        before(with_text(v, text)) == before(v) + text,
        behind(with_text(v, text)) == behind(v),
        only_input_differs(v, with_text(v, text)),
{
    assert(before(with_text(v, text)) =~= before(v) + text);
    assert(behind(with_text(v, text)) =~= behind(v));
}

/// A character is written at the cursor, and so is a line feed for Enter with the shift
/// key.
pub proof fn characters_are_written_at_the_cursor(v: AppView, key: Key, now: u64, ch: char)
    requires
        is_taken(v, key),
        (key.code == KeyCode::Char(ch) && !key.ctrl && !key.alt) || (key.code is Enter && key.shift
            && ch == '\n'),
    ensures
        before(after_key(v, key, now)) == before(v).push(ch),
        behind(after_key(v, key, now)) == behind(v),
        only_input_differs(v, after_key(v, key, now)),
        key_outcome(v, key, now) is Continue,
{
    texts_go_in_at_the_cursor(v, seq![ch]);
    assert(before(v) + seq![ch] =~= before(v).push(ch));
}

/// Backspace takes the character before the cursor, Delete the one behind it. Where there
/// is none they take nothing, but in an empty input Backspace takes the last image.
pub proof fn single_characters_are_taken(v: AppView, key: Key, now: u64)
    requires
        is_taken(v, key),
    ensures
        key.code is Backspace && v.cursor > 0 ==> before(after_key(v, key, now)) == before(
            v,
        ).drop_last() && behind(after_key(v, key, now)) == behind(v) && only_input_differs(
            v,
            after_key(v, key, now),
        ),
        key.code is Backspace && v.input.len() == 0 && v.pending_images.len() > 0
            ==> only_images_differ(v, after_key(v, key, now)) && after_key(
            v,
            key,
            now,
        ).pending_images == v.pending_images.drop_last(),
        key.code is Backspace && v.cursor == 0 && (v.input.len() > 0 || v.pending_images.len()
            == 0) ==> after_key(v, key, now) == v,
        key.code is Delete && v.cursor < v.input.len() ==> before(after_key(v, key, now))
            == before(v) && behind(after_key(v, key, now)) == behind(v).drop_first()
            && only_input_differs(v, after_key(v, key, now)),
        key.code is Delete && v.cursor == v.input.len() ==> after_key(v, key, now) == v,
{
    let w = after_key(v, key, now);
    if key.code is Backspace && v.cursor > 0 {
        assert(before(w) =~= before(v).drop_last());
        assert(behind(w) =~= behind(v));
    }
    if key.code is Delete && v.cursor < v.input.len() {
        assert(before(w) =~= before(v));
        assert(behind(w) =~= behind(v).drop_first());
    }
}

/// The keys that move the cursor leave the text as it is. Left and Right move by one
/// character, as long as there is one; Home and Ctrl-A move to the start, End and Ctrl-E
/// to the end.
pub proof fn the_cursor_moves_over_the_text(v: AppView, key: Key, now: u64)
    requires
        is_taken(v, key),
        key.code is Left || key.code is Right || key.code is Home || key.code is End || is_control(
            key,
            'a',
        ) || is_control(key, 'e'),
    ensures
        after_key(v, key, now) == (AppView { cursor: after_key(v, key, now).cursor, ..v }),
        key.code is Left ==> after_key(v, key, now).cursor == (if v.cursor == 0 {
            0
        } else {
            v.cursor - 1
        }),
        key.code is Right ==> after_key(v, key, now).cursor == (if v.cursor == v.input.len() {
            v.cursor
        } else {
            v.cursor + 1
        }),
        key.code is Home || is_control(key, 'a') ==> after_key(v, key, now).cursor == 0,
        key.code is End || is_control(key, 'e') ==> after_key(v, key, now).cursor
            == v.input.len(),
{
}

/// Ctrl-K takes all that stands behind the cursor, Ctrl-U all that stands before it, and
/// the other side stays.
pub proof fn one_side_of_the_cursor_is_taken(v: AppView, key: Key, now: u64)
    requires
        is_taken(v, key),
    ensures
        is_control(key, 'k') ==> before(after_key(v, key, now)) == before(v) && behind(
            after_key(v, key, now),
        ).len() == 0 && only_input_differs(v, after_key(v, key, now)),
        is_control(key, 'u') ==> before(after_key(v, key, now)).len() == 0 && behind(
            after_key(v, key, now),
        ) == behind(v) && only_input_differs(v, after_key(v, key, now)),
{
    let w = after_key(v, key, now);
    if is_control(key, 'k') {
        assert(before(w) =~= before(v));
    }
    if is_control(key, 'u') {
        assert(behind(w) =~= behind(v));
    }
}

/// Where the last word starts: all from there on is no white space, and what stands in
/// front of it is none or ends with white space.
proof fn lemma_last_word_at(s: Seq<char>)
    ensures
        last_word_at(s) <= s.len(),
        forall|i: int| last_word_at(s) <= i < s.len() ==> !is_white_space(#[trigger] s[i]),
        last_word_at(s) > 0 ==> is_white_space(s[last_word_at(s) - 1]),
    decreases s.len(),
{
    if s.len() > 0 && !is_white_space(s.last()) {
        lemma_last_word_at(s.drop_last());
        assert forall|i: int| last_word_at(s) <= i < s.len() implies !is_white_space(
            #[trigger] s[i],
        ) by {
            if i < s.len() - 1 {
                assert(s.drop_last()[i] == s[i]);
            }
        }
    }
}

/// Ctrl-W takes the last word before the cursor and the white space behind it, and no
/// more: what is left before the cursor is nothing or ends with white space.
pub proof fn the_last_word_is_taken(v: AppView, key: Key, now: u64) -> (taken: (
    Seq<char>,
    Seq<char>,
))
    requires
        is_taken(v, key),
        is_control(key, 'w'),
    ensures
        before(v) == before(after_key(v, key, now)) + taken.0 + taken.1,
        forall|i: int| 0 <= i < taken.0.len() ==> !is_white_space(#[trigger] taken.0[i]),
        is_blank(taken.1),
        !is_blank(before(v)) ==> taken.0.len() > 0,
        before(after_key(v, key, now)).len() > 0 ==> is_white_space(
            before(after_key(v, key, now)).last(),
        ),
        behind(after_key(v, key, now)) == behind(v),
        only_input_differs(v, after_key(v, key, now)),
{
    let w = after_key(v, key, now);
    let s = before(v);
    let t = trimmed_end(s);
    lemma_trimmed_end(s);
    lemma_last_word_at(t);
    let at = last_word_at(t) as int;
    let word = t.skip(at);
    let gap = s.skip(t.len() as int);
    assert(s.take(t.len() as int) == t);
    assert(before(w) =~= t.take(at));
    assert(behind(w) =~= behind(v));
    assert(s =~= t.take(at) + word + gap);
    if word.len() == 0 && !is_blank(s) {
        if t.len() == 0 {
            assert(gap =~= s);
        } else {
            assert(is_white_space(t[t.len() - 1]));
        }
    }
    (word, gap)
}

/// Ctrl-D takes all images, and any other character with the control or the alternate key
/// changes nothing.
pub proof fn other_characters_do_nothing(v: AppView, key: Key, now: u64, ch: char)
    requires
        is_taken(v, key),
        key.code == KeyCode::Char(ch),
    ensures
        key.ctrl && ch == 'd' ==> only_images_differ(v, after_key(v, key, now)) && after_key(
            v,
            key,
            now,
        ).pending_images.len() == 0,
        key.ctrl && ch != 'a' && ch != 'e' && ch != 'k' && ch != 'u' && ch != 'w' && ch != 'd'
            ==> after_key(v, key, now) == v,
        !key.ctrl && key.alt ==> after_key(v, key, now) == v,
        key_outcome(v, key, now) is Quit <==> key.ctrl && ch == 'c',
{
}

/// Ctrl-C quits at any time, and nothing else does. A key that does not go down does
/// nothing at all.
pub proof fn only_one_key_quits(v: AppView, key: Key, now: u64)
    ensures
        key_outcome(v, key, now) is Quit <==> key.pressed && is_control(key, 'c'),
        !key.pressed ==> after_key(v, key, now) == v && key_outcome(v, key, now) is Continue,
{
}

/// Scrolling goes by three lines with the shift key and an arrow, and by twenty for a
/// page, busy or not. Up stops at the top and ends following the conversation; down does
/// not go beyond what can be counted. Nothing else changes, and an arrow alone does
/// nothing.
pub proof fn scrolling_goes_by_lines_and_pages(v: AppView, key: Key, now: u64)
    requires
        key.pressed,
        v.scroll_offset <= usize::MAX,
    ensures
        ({
            let w = after_key(v, key, now);
            let up: int = if key.code is PageUp {
                20
            } else {
                3
            };
            let down: int = if key.code is PageDown {
                20
            } else {
                3
            };
            &&& key.code is PageUp || (key.code is Up && key.shift) ==> {
                &&& w == (AppView { scroll_offset: w.scroll_offset, auto_scroll: false, ..v })
                &&& v.scroll_offset >= up ==> w.scroll_offset == v.scroll_offset - up
                &&& v.scroll_offset < up ==> w.scroll_offset == 0
            }
            &&& key.code is PageDown || (key.code is Down && key.shift) ==> {
                &&& w == (AppView { scroll_offset: w.scroll_offset, ..v })
                &&& v.scroll_offset + down <= usize::MAX ==> w.scroll_offset == v.scroll_offset
                    + down
                &&& v.scroll_offset + down > usize::MAX ==> w.scroll_offset == usize::MAX
            }
            &&& (key.code is Up || key.code is Down) && !key.shift ==> w == v
        }),
{
}

/// Enter sends what was typed, with its images, and nothing where there is neither. The
/// message stands at the end of the conversation, which is followed from then on, and the
/// agent is busy from then on.
pub proof fn enter_sends_what_was_typed(v: AppView, key: Key, now: u64)
    requires
        is_taken(v, key),
        key.code is Enter,
        !key.shift,
    ensures
        ({
            let w = after_key(v, key, now);
            if v.input.len() > 0 || v.pending_images.len() > 0 {
                &&& key_outcome(v, key, now) == (KeyOutcomeView::Submit {
                    text: v.input,
                    images: v.pending_images,
                })
                &&& w.items == v.items + seq![
                    ItemView::UserMessage { text: v.input, images: image_names(v.pending_images) },
                ]
                &&& w.input.len() == 0
                &&& w.cursor == 0
                &&& w.pending_images.len() == 0
                &&& w.busy
                &&& w.busy_since == Some(now)
                &&& w.auto_scroll
                &&& w == (AppView {
                    items: w.items,
                    input: w.input,
                    cursor: w.cursor,
                    busy: w.busy,
                    busy_since: w.busy_since,
                    auto_scroll: w.auto_scroll,
                    pending_images: w.pending_images,
                    ..v
                })
            } else {
                w == v && key_outcome(v, key, now) is Continue
            }
        }),
{
    let w = after_key(v, key, now);
    if v.input.len() > 0 || v.pending_images.len() > 0 {
        assert(w.items =~= v.items + seq![
            ItemView::UserMessage { text: v.input, images: image_names(v.pending_images) },
        ]);
    }
}

/// The images of a message are named by their files, in order.
pub proof fn images_are_named_by_their_files(images: Seq<ImageView>)
    ensures
        image_names(images).len() == images.len(),
        forall|i: int|
            0 <= i < images.len() ==> #[trigger] image_names(images)[i] == images[i].filename,
{
}

/// Esc does nothing while the agent is not busy. While it is, a first one is remembered
/// with its time and cancels nothing, a second one within two seconds cancels and is
/// forgotten, and a later one counts as a first one.
pub proof fn escapes_are_counted_within_two_seconds(v: AppView, key: Key, now: u64)
    requires
        valid(v),
        key.pressed,
        key.code is Esc,
    ensures
        ({
            let w = after_key(v, key, now);
            let in_time = v.esc_press_time matches Some(t) && now - t < 2000;
            &&& !v.busy ==> w == v && key_outcome(v, key, now) is Continue
            &&& v.busy && !in_time ==> key_outcome(v, key, now) is Continue && w == (AppView {
                pending_cancel: true,
                esc_press_time: Some(now),
                ..v
            })
            &&& v.busy && in_time ==> key_outcome(v, key, now) is Cancel && w == (AppView {
                pending_cancel: false,
                esc_press_time: None,
                ..v
            })
        }),
{
}

/// A file that was read is attached with its name, its bytes and its media type, unless it
/// has more than twenty mebibytes. That it has, or that it could not be read, is shown as
/// an error at the end of the conversation.
pub proof fn images_are_attached_or_refused(
    v: AppView,
    path: Seq<char>,
    filename: Seq<char>,
    bytes: Seq<u8>,
    error: Seq<char>,
)
    ensures
        ({
            let w = after_image(v, path, filename, Ok(bytes));
            let refused = after_image(v, path, filename, Err(error));
            &&& bytes.len() <= 20 * 1024 * 1024 ==> only_images_differ(v, w) && w.pending_images
                == v.pending_images + seq![
                ImageView { filename, base64_data: base64(bytes), media_type: media_type(path) },
            ]
            &&& bytes.len() > 20 * 1024 * 1024 ==> w == (AppView {
                items: v.items + seq![ItemView::Error("Image too large (max 20MB)"@)],
                ..v
            })
            &&& refused == (AppView {
                items: v.items + seq![ItemView::Error("Failed to read image: "@ + error)],
                ..v
            })
        }),
{
    let image = ImageView { filename, base64_data: base64(bytes), media_type: media_type(path) };
    let large = ItemView::Error("Image too large (max 20MB)"@);
    let failed = ItemView::Error("Failed to read image: "@ + error);
    assert(v.pending_images.push(image) =~= v.pending_images + seq![image]);
    assert(v.items.push(large) =~= v.items + seq![large]);
    assert(v.items.push(failed) =~= v.items + seq![failed]);
}

/// A pasted text goes in at the cursor, all of it, unless it names an image, which is then
/// looked for under the path in it. While the agent is busy nothing is pasted.
pub proof fn pastes_go_in_or_name_an_image(v: AppView, text: Seq<char>)
    requires
        valid(v),
    ensures
        v.busy ==> paste_step(v, text) is Ignored && after_paste(v, text) == v && after_text_paste(
            v,
            text,
        ) == v,
        !v.busy ==> before(after_text_paste(v, text)) == before(v) + text && behind(
            after_text_paste(v, text),
        ) == behind(v) && only_input_differs(v, after_text_paste(v, text)),
        !v.busy && names_image(path_in(text)) ==> paste_step(v, text) == PasteStepView::Image(
            path_in(text),
        ) && after_paste(v, text) == v,
        !v.busy && !names_image(path_in(text)) ==> paste_step(v, text) is Inserted && after_paste(
            v,
            text,
        ) == after_text_paste(v, text),
{
    texts_go_in_at_the_cursor(v, text);
}

/// A first Esc is remembered for two seconds and then forgotten. Nothing else changes with
/// time.
pub proof fn escapes_are_forgotten_after_two_seconds(v: AppView, now: u64)
    requires
        valid(v),
    ensures
        (v.esc_press_time matches Some(t) ==> now - t < 2000) ==> after_tick(v, now) == v,
        (v.esc_press_time matches Some(t) && now - t >= 2000) ==> after_tick(v, now) == (AppView {
            pending_cancel: false,
            esc_press_time: None,
            ..v
        }),
{
}

} // verus!
