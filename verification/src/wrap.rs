//! Wrapping of text to a width.

use vstd::prelude::*;
use crate::text::{
    chars_of, index_of, lemma_index_of, lines_of, split_lines, string_of, views, without_cr,
};
use crate::text_laws::{free_of, lines_are_read_one_by_one};

verus! {

broadcast use vstd::seq::group_seq_axioms;

/// How many of the first `limit` characters there are up to the last space among them.
pub open spec fn space_end(s: Seq<char>, limit: nat) -> nat
    decreases limit,
{
    if limit == 0 || s[limit - 1] == ' ' {
        limit
    } else {
        space_end(s, (limit - 1) as nat)
    }
}

/// How much of a line fits in a row: all of it, else as many whole words as fit, each
/// with the space behind it, else as much of the first word as fits.
pub open spec fn row_length(s: Seq<char>, width: nat) -> nat {
    if s.len() <= width {
        s.len()
    } else if space_end(s, width) > 0 {
        space_end(s, width)
    } else {
        width
    }
}

proof fn lemma_space_end(s: Seq<char>, limit: nat)
    requires
        limit <= s.len(),
    ensures
        space_end(s, limit) <= limit,
        space_end(s, limit) > 0 ==> s[space_end(s, limit) - 1] == ' ',
        forall|j: int| space_end(s, limit) <= j < limit ==> s[j] != ' ',
    decreases limit,
{
    if limit > 0 && s[limit - 1] != ' ' {
        lemma_space_end(s, (limit - 1) as nat);
    }
}

/// The rows of a line.
pub open spec fn rows_of(s: Seq<char>, width: nat) -> Seq<Seq<char>>
    decreases s.len(),
{
    if s.len() == 0 || width == 0 {
        Seq::empty()
    } else {
        let n = row_length(s, width) as int;
        proof {
            lemma_row_length(s, width);
        }
        seq![s.take(n)] + rows_of(s.skip(n), width)
    }
}

/// A row takes something of a line, and no more than fits.
pub proof fn lemma_row_length(s: Seq<char>, width: nat)
    requires
        s.len() > 0,
        width > 0,
    ensures
        0 < row_length(s, width) <= s.len(),
        row_length(s, width) <= width,
{
    if s.len() > width {
        lemma_space_end(s, width);
    }
}

/// The rows of a line, of which an empty line has one, and so has every line where there
/// is no room.
pub open spec fn line_rows(line: Seq<char>, width: nat) -> Seq<Seq<char>> {
    if line.len() == 0 || width == 0 {
        seq![Seq::empty()]
    } else {
        rows_of(line, width)
    }
}

/// Rows with a prefix before each.
pub open spec fn prefixed(rows: Seq<Seq<char>>, prefix: Seq<char>) -> Seq<Seq<char>> {
    rows.map_values(|row: Seq<char>| prefix + row)
}

/// The rows of some lines, with a prefix before each.
pub open spec fn lines_wrapped(lines: Seq<Seq<char>>, prefix: Seq<char>, width: nat) -> Seq<
    Seq<char>,
>
    decreases lines.len(),
{
    if lines.len() == 0 {
        Seq::empty()
    } else {
        lines_wrapped(lines.drop_last(), prefix, width) + prefixed(
            line_rows(lines.last(), width),
            prefix,
        )
    }
}

/// How much room a prefix leaves.
pub open spec fn room(prefix: Seq<char>, max_width: nat) -> nat {
    if max_width < prefix.len() {
        0
    } else {
        (max_width - prefix.len()) as nat
    }
}

/// A text in rows of at most `max_width` characters, with a prefix before each; an empty
/// text has one row.
pub open spec fn wrapped(text: Seq<char>, prefix: Seq<char>, max_width: nat) -> Seq<Seq<char>> {
    let lines = lines_of(text);
    if lines.len() == 0 {
        seq![prefix]
    } else {
        lines_wrapped(lines, prefix, room(prefix, max_width))
    }
}

/// Adds a row with its prefix.
fn push_row(out: &mut Vec<String>, prefix: &str, row: &str)
    ensures
        views(final(out)@) == views(old(out)@).push(prefix@ + row@),
{
    let mut s = prefix.to_string();
    s.append(row);
    out.push(s);
    assert(views(out@) =~= views(old(out)@).push(prefix@ + row@));
}

/// How much of the characters from `from` on fits in a row.
fn fitting(cs: &Vec<char>, from: usize, width: usize) -> (r: usize)
    requires
        from <= cs@.len(),
    ensures
        r == row_length(cs@.skip(from as int), width as nat),
{
    let n = cs.len();
    if n - from <= width {
        return n - from;
    }
    let ghost s = cs@.skip(from as int);
    let mut end: usize = width;
    while end > 0 && cs[from + end - 1] != ' '
        invariant
            end <= width,
            from + width <= n == cs@.len(),
            s == cs@.skip(from as int),
            space_end(s, width as nat) == space_end(s, end as nat),
        decreases end,
    {
        assert(s[end - 1] == cs@[from + end - 1]);
        end = end - 1;
    }
    proof {
        if end > 0 {
            assert(s[end - 1] == cs@[from + end - 1]);
        }
    }
    if end > 0 {
        end
    } else {
        width
    }
}

/// Adds the rows of a line.
fn push_rows(out: &mut Vec<String>, line: &str, prefix: &str, width: usize)
    ensures
        views(final(out)@) == views(old(out)@) + prefixed(
            line_rows(line@, width as nat),
            prefix@,
        ),
{
    let cs = chars_of(line);
    let n = cs.len();
    if n == 0 || width == 0 {
        push_row(out, prefix, "");
        proof {
            reveal_strlit("");
            assert(""@ =~= Seq::<char>::empty());
            assert(prefixed(line_rows(line@, width as nat), prefix@) =~= seq![prefix@ + ""@]);
        }
        return ;
    }
    let mut from: usize = 0;
    assert(cs@.skip(0) =~= line@);
    while from < n
        invariant
            from <= n == cs@.len(),
            width > 0,
            views(old(out)@) + prefixed(rows_of(line@, width as nat), prefix@) == views(out@)
                + prefixed(rows_of(cs@.skip(from as int), width as nat), prefix@),
        decreases n - from,
    {
        let ghost s = cs@.skip(from as int);
        proof {
            lemma_row_length(s, width as nat);
        }
        let k = fitting(&cs, from, width);
        let row = string_of(&cs, from, from + k);
        let ghost before = views(out@);
        push_row(out, prefix, row.as_str());
        proof {
            assert(s.take(k as int) =~= row@);
            assert(s.skip(k as int) =~= cs@.skip(from + k));
            let rest = rows_of(cs@.skip(from + k), width as nat);
            assert(prefixed(rows_of(s, width as nat), prefix@) =~= seq![prefix@ + row@]
                + prefixed(rest, prefix@));
            assert(before + prefixed(rows_of(s, width as nat), prefix@) =~= views(out@)
                + prefixed(rest, prefix@));
        }
        from = from + k;
    }
    assert(prefixed(rows_of(cs@.skip(from as int), width as nat), prefix@) =~= Seq::empty());
    assert(views(out@) =~= views(out@) + Seq::<Seq<char>>::empty());
}

/// A text in rows of at most `max_width` characters, with a prefix before each.
pub fn wrap_with_prefix(text: &str, prefix: &str, max_width: usize) -> (r: Vec<String>)
    ensures
        views(r@) == wrapped(text@, prefix@, max_width as nat),
{
    let lines = split_lines(text);
    assert(views(lines@).len() == lines@.len());
    let taken = prefix.unicode_len();
    let width = if max_width < taken {
        0
    } else {
        max_width - taken
    };
    let mut out: Vec<String> = Vec::new();
    if lines.len() == 0 {
        push_row(&mut out, prefix, "");
        proof {
            reveal_strlit("");
            assert(prefix@ + ""@ =~= prefix@);
            assert(views(out@) =~= seq![prefix@]);
        }
        return out;
    }
    let mut i: usize = 0;
    assert(views(out@) =~= Seq::empty());
    while i < lines.len()
        invariant
            i <= lines@.len(),
            views(out@) == lines_wrapped(views(lines@).take(i as int), prefix@, width as nat),
        decreases lines@.len() - i,
    {
        push_rows(&mut out, lines[i].as_str(), prefix, width);
        proof {
            let done = views(lines@).take(i + 1);
            assert(done.drop_last() =~= views(lines@).take(i as int));
            assert(done.last() == lines@[i as int]@);
        }
        i = i + 1;
    }
    assert(views(lines@).take(i as int) =~= views(lines@));
    out
}

/// Pieces one after another.
pub open spec fn flattened(pieces: Seq<Seq<char>>) -> Seq<char>
    decreases pieces.len(),
{
    if pieces.len() == 0 {
        Seq::empty()
    } else {
        pieces[0] + flattened(pieces.drop_first())
    }
}

/// Where there is room, wrapping loses nothing: the rows of a line, one after another,
/// are the line.
pub proof fn rows_make_up_the_line(line: Seq<char>, width: nat)
    requires
        width > 0,
    ensures
        flattened(line_rows(line, width)) == line,
    decreases line.len(),
{
    if line.len() == 0 {
        let rows = line_rows(line, width);
        assert(flattened(rows.drop_first()) =~= Seq::empty());
        assert(flattened(rows) =~= line);
    } else {
        let n = row_length(line, width) as int;
        lemma_row_length(line, width);
        let rest = rows_of(line.skip(n), width);
        assert(rows_of(line, width).drop_first() =~= rest);
        if line.skip(n).len() > 0 {
            rows_make_up_the_line(line.skip(n), width);
        } else {
            assert(flattened(rest) =~= line.skip(n));
        }
        assert(line.take(n) + line.skip(n) =~= line);
    }
}

/// No row is wider than asked, unless the prefix alone is.
pub proof fn rows_fit(text: Seq<char>, prefix: Seq<char>, max_width: nat)
    ensures
        forall|i: int|
            0 <= i < wrapped(text, prefix, max_width).len() ==> (#[trigger] wrapped(
                text,
                prefix,
                max_width,
            )[i]).len() <= if max_width < prefix.len() {
                prefix.len()
            } else {
                max_width
            },
{
    lemma_lines_fit(lines_of(text), prefix, room(prefix, max_width));
}

proof fn lemma_lines_fit(lines: Seq<Seq<char>>, prefix: Seq<char>, width: nat)
    ensures
        forall|i: int|
            0 <= i < lines_wrapped(lines, prefix, width).len() ==> (#[trigger] lines_wrapped(
                lines,
                prefix,
                width,
            )[i]).len() <= prefix.len() + width,
    decreases lines.len(),
{
    if lines.len() > 0 {
        lemma_lines_fit(lines.drop_last(), prefix, width);
        let before = lines_wrapped(lines.drop_last(), prefix, width);
        let rows = line_rows(lines.last(), width);
        if lines.last().len() > 0 && width > 0 {
            lemma_row_widths(lines.last(), width);
        }
        assert forall|i: int| 0 <= i < lines_wrapped(lines, prefix, width).len() implies (
        #[trigger] lines_wrapped(lines, prefix, width)[i]).len() <= prefix.len() + width by {
            if i >= before.len() {
                let k = i - before.len();
                assert(lines_wrapped(lines, prefix, width)[i] == prefix + rows[k]);
                assert(rows[k].len() <= width);
            } else {
                assert(lines_wrapped(lines, prefix, width)[i] == before[i]);
            }
        }
    }
}

proof fn lemma_row_widths(line: Seq<char>, width: nat)
    requires
        width > 0,
    ensures
        forall|i: int|
            0 <= i < rows_of(line, width).len() ==> 0 < (#[trigger] rows_of(line, width)[i]).len()
                <= width,
    decreases line.len(),
{
    if line.len() > 0 {
        let n = row_length(line, width) as int;
        lemma_row_length(line, width);
        lemma_row_widths(line.skip(n), width);
        let rest = rows_of(line.skip(n), width);
        assert forall|i: int| 0 <= i < rows_of(line, width).len() implies 0 < (#[trigger] rows_of(
            line,
            width,
        )[i]).len() <= width by {
            if i > 0 {
                assert(rows_of(line, width)[i] == rest[i - 1]);
            }
        }
    }
}

/// A word is cut only where it is too long for a row: a row that is not the last of its
/// line ends with a space, or holds none and is full.
pub proof fn words_are_cut_only_where_too_long(line: Seq<char>, width: nat, i: int)
    requires
        width > 0,
        0 <= i < rows_of(line, width).len() - 1,
    ensures
        rows_of(line, width)[i].len() > 0,
        rows_of(line, width)[i].last() == ' ' || (rows_of(line, width)[i].len() == width
            && !rows_of(line, width)[i].contains(' ')),
    decreases line.len(),
{
    let n = row_length(line, width) as int;
    lemma_row_length(line, width);
    let rest = rows_of(line.skip(n), width);
    if i == 0 {
        assert(rest.len() > 0);
        assert(line.len() > width);
        lemma_space_end(line, width);
    } else {
        assert(rows_of(line, width)[i] == rest[i - 1]);
        words_are_cut_only_where_too_long(line.skip(n), width, i - 1);
    }
}

/// Rows are filled: of two rows of a line that follow one another, what the second starts
/// with, up to and with its first space or all of it where it has none, would not have
/// fitted behind the first.
pub proof fn rows_are_filled(line: Seq<char>, width: nat, i: int)
    requires
        width > 0,
        0 <= i < line_rows(line, width).len() - 1,
    ensures
        ({
            let row = line_rows(line, width)[i];
            let next = line_rows(line, width)[i + 1];
            let piece = if next.contains(' ') {
                index_of(next, ' ') + 1
            } else {
                next.len() as int
            };
            row.len() + piece > width
        }),
    decreases line.len(),
{
    let n = row_length(line, width) as int;
    lemma_row_length(line, width);
    let rest = line.skip(n);
    let rows = line_rows(line, width);
    assert(rows == seq![line.take(n)] + rows_of(rest, width));
    if rest.len() > 0 {
        if i > 0 {
            assert(rows[i] == rows_of(rest, width)[i - 1]);
            assert(rows[i + 1] == rows_of(rest, width)[i]);
            rows_are_filled(rest, width, i - 1);
        } else {
            let m = row_length(rest, width) as int;
            lemma_row_length(rest, width);
            let next = rest.take(m);
            assert(rows[1] == rows_of(rest, width)[0]);
            assert(rows[1] == next);
            lemma_space_end(line, width);
            lemma_index_of(next, ' ');
            if next.contains(' ') {
                let j = index_of(next, ' ');
                assert(0 <= j < next.len());
                assert(line[n + j] == ' ');
            } else if rest.len() > width {
                lemma_space_end(rest, width);
                if space_end(rest, width) > 0 {
                    assert(next[m - 1] == ' ');
                }
            }
        }
    }
}

/// The rows of lines are those of the first line, then those of the others.
proof fn lemma_lines_wrapped_front(
    line: Seq<char>,
    lines: Seq<Seq<char>>,
    prefix: Seq<char>,
    width: nat,
)
    ensures
        lines_wrapped(seq![line] + lines, prefix, width) == prefixed(
            line_rows(line, width),
            prefix,
        ) + lines_wrapped(lines, prefix, width),
    decreases lines.len(),
{
    let all = seq![line] + lines;
    let first = prefixed(line_rows(line, width), prefix);
    if lines.len() == 0 {
        assert(all.drop_last() =~= Seq::empty());
        assert(lines_wrapped(all.drop_last(), prefix, width) =~= Seq::empty());
        assert(all.last() == line);
        assert(lines_wrapped(all, prefix, width) =~= first + lines_wrapped(lines, prefix, width));
    } else {
        assert(all.drop_last() =~= seq![line] + lines.drop_last());
        assert(all.last() == lines.last());
        lemma_lines_wrapped_front(line, lines.drop_last(), prefix, width);
        assert(lines_wrapped(all, prefix, width) =~= first + lines_wrapped(lines, prefix, width));
    }
}

/// A text is wrapped line by line: first the rows of what stands before the first line
/// feed, less a carriage return, then those of what follows, if anything does.
pub proof fn texts_are_wrapped_line_by_line(
    line: Seq<char>,
    rest: Seq<char>,
    prefix: Seq<char>,
    max_width: nat,
)
    requires
        free_of(line, '\n'),
    ensures
        wrapped(line + seq!['\n'] + rest, prefix, max_width) == wrapped(
            without_cr(line),
            prefix,
            max_width,
        ) + (if rest.len() == 0 {
            Seq::empty()
        } else {
            wrapped(rest, prefix, max_width)
        }),
{
    let width = room(prefix, max_width);
    let head = without_cr(line);
    lines_are_read_one_by_one(line, rest);
    lemma_lines_wrapped_front(head, lines_of(rest), prefix, width);
    lines_have_their_rows(head, prefix, max_width);
    let first = wrapped(head, prefix, max_width);
    assert(first =~= prefixed(line_rows(head, width), prefix));
    if rest.len() == 0 {
        assert(lines_of(rest) =~= Seq::empty());
        assert(lines_wrapped(lines_of(rest), prefix, width) =~= Seq::empty());
    } else {
        assert(lines_of(rest).len() > 0);
    }
    assert(wrapped(line + seq!['\n'] + rest, prefix, max_width) =~= first + (if rest.len() == 0 {
        Seq::empty()
    } else {
        wrapped(rest, prefix, max_width)
    }));
}

/// A line is shown in its rows for the room that the prefix leaves, each behind the
/// prefix. Where the prefix leaves none there is the prefix alone.
pub proof fn lines_have_their_rows(line: Seq<char>, prefix: Seq<char>, max_width: nat)
    requires
        free_of(line, '\n'),
    ensures
        max_width <= prefix.len() ==> wrapped(line, prefix, max_width) == seq![prefix],
        max_width > prefix.len() ==> {
            let rows = line_rows(line, (max_width - prefix.len()) as nat);
            &&& wrapped(line, prefix, max_width).len() == rows.len()
            &&& forall|i: int|
                0 <= i < rows.len() ==> #[trigger] wrapped(line, prefix, max_width)[i] == prefix
                    + rows[i]
        },
{
    let width = room(prefix, max_width);
    let rows = line_rows(line, width);
    if line.len() == 0 {
        assert(prefix + Seq::<char>::empty() =~= prefix);
    } else {
        lines_are_read_one_by_one(line, Seq::empty());
        assert(lines_of(line) =~= seq![line] + Seq::<Seq<char>>::empty());
        lemma_lines_wrapped_front(line, Seq::empty(), prefix, width);
        assert(lines_wrapped(Seq::empty(), prefix, width) =~= Seq::empty());
        assert(prefix + Seq::<char>::empty() =~= prefix);
        assert(wrapped(line, prefix, max_width) =~= prefixed(rows, prefix));
        if width == 0 {
            assert(wrapped(line, prefix, max_width) =~= seq![prefix]);
        }
    }
}

/// The rows of a line hold something, fit, and are cut behind a space where they hold one.
pub proof fn rows_are_cut_behind_spaces(line: Seq<char>, width: nat, i: int)
    requires
        width > 0,
        line.len() > 0,
        0 <= i < line_rows(line, width).len(),
    ensures
        0 < line_rows(line, width)[i].len() <= width,
        i < line_rows(line, width).len() - 1 && line_rows(line, width)[i].contains(' ')
            ==> line_rows(line, width)[i].last() == ' ',
        i < line_rows(line, width).len() - 1 && !line_rows(line, width)[i].contains(' ')
            ==> line_rows(line, width)[i].len() == width,
    decreases line.len(),
{
    let n = row_length(line, width) as int;
    lemma_row_length(line, width);
    let rest = line.skip(n);
    let rows = rows_of(line, width);
    if i < rows.len() - 1 {
        words_are_cut_only_where_too_long(line, width, i);
        let row = rows[i];
        if row.last() == ' ' {
            assert(row[row.len() - 1] == ' ');
        }
    }
    if i > 0 {
        assert(rows[i] == rows_of(rest, width)[i - 1]);
        rows_are_cut_behind_spaces(rest, width, i - 1);
    }
}

} // verus!
