//! Listings of a file's lines with their anchors.

use vstd::prelude::*;
use crate::anchor::{line_tag, tag_of};
use crate::number::{decimal, push_decimal};
use crate::text::{join, joined, lines_of, split_lines, views};

verus! {

broadcast use vstd::seq::group_seq_axioms;

/// A line behind its anchor and a vertical bar.
pub open spec fn anchored_line(line_no: nat, line: Seq<char>) -> Seq<char> {
    decimal(line_no) + ":"@ + tag_of(line) + "|"@ + line
}

/// How many lines a listing leaves out in front: one less than a line number to start
/// from, where a positive one is given, but no more than there are.
pub open spec fn listing_start(total: nat, offset: Option<u64>) -> nat {
    match offset {
        Some(first) => if (first as usize) == 0 {
            0
        } else if (first as usize) - 1 < total {
            ((first as usize) - 1) as nat
        } else {
            total
        },
        None => 0,
    }
}

/// How many lines a listing shows of those that it does not leave out in front.
pub open spec fn listing_count(left: nat, limit: Option<u64>) -> nat {
    match limit {
        Some(most) => if (most as usize) < left {
            (most as usize) as nat
        } else {
            left
        },
        None => left,
    }
}

/// The anchored lines from index `start` on, `count` of them.
pub open spec fn anchored_lines(lines: Seq<Seq<char>>, start: nat, count: nat) -> Seq<Seq<char>> {
    Seq::new(count, |i: int| anchored_line((start + i + 1) as nat, lines[start + i]))
}

/// The listing of a file's text: its anchored lines in the range asked for, then how
/// many lines there are and which of them are shown.
pub open spec fn listing_of(
    content: Seq<char>,
    offset: Option<u64>,
    limit: Option<u64>,
) -> Seq<char> {
    let lines = lines_of(content);
    let total = lines.len();
    let start = listing_start(total, offset);
    let count = listing_count((total - start) as nat, limit);
    if total == 0 {
        "[empty file]"@
    } else if count == 0 {
        "[no lines in range]"@
    } else {
        joined(anchored_lines(lines, start, count), "\n"@) + "\n["@ + decimal(total)
            + " lines total, showing lines "@ + decimal(start + 1) + "-"@ + decimal(start + count)
            + "; edit anchors are line:tag]"@
    }
}

/// Lists the lines of a file with their anchors.
pub fn list_lines(content: &str, offset: Option<u64>, limit: Option<u64>) -> (r: String)
    ensures
        r@ == listing_of(content@, offset, limit),
{
    let lines = split_lines(content);
    let total = lines.len();
    let ghost all = lines_of(content@);
    assert(views(lines@).len() == lines@.len());
    if total == 0 {
        return "[empty file]".to_string();
    }
    let start = match offset {
        Some(first) => {
            let line_no = first as usize;
            if line_no == 0 {
                0
            } else if line_no - 1 < total {
                line_no - 1
            } else {
                total
            }
        },
        None => 0,
    };
    let count = match limit {
        Some(most) => {
            if (most as usize) < total - start {
                most as usize
            } else {
                total - start
            }
        },
        None => total - start,
    };
    assert(start == listing_start(all.len(), offset));
    assert(count == listing_count((all.len() - start) as nat, limit));
    if count == 0 {
        return "[no lines in range]".to_string();
    }
    let mut selected: Vec<String> = Vec::new();
    let mut i: usize = 0;
    assert(views(selected@) =~= anchored_lines(all, start as nat, 0));
    while i < count
        invariant
            i <= count,
            start + count <= total == lines@.len(),
            views(lines@) == all,
            views(selected@) =~= anchored_lines(all, start as nat, i as nat),
        decreases count - i,
    {
        let ghost before = selected@;
        let line = lines[start + i].as_str();
        let mut shown = String::new();
        push_decimal(&mut shown, (start + i + 1) as u64);
        shown.append(":");
        shown.append(line_tag(line).as_str());
        shown.append("|");
        shown.append(line);
        assert(shown@ =~= anchored_line((start + i + 1) as nat, all[start + i]));
        selected.push(shown);
        assert(views(selected@) =~= views(before).push(shown@));
        i = i + 1;
    }
    let mut result = join(&selected, "\n");
    result.append("\n[");
    push_decimal(&mut result, total as u64);
    result.append(" lines total, showing lines ");
    push_decimal(&mut result, (start + 1) as u64);
    result.append("-");
    push_decimal(&mut result, (start + count) as u64);
    result.append("; edit anchors are line:tag]");
    result
}

} // verus!
