//! Reading pane text to answer placeholders: the line at a position, and
//! the word under a position, delimited by a configurable separator set.
//! The rendering layer owns the real cell storage; here a pane's text is
//! its list of lines.

use vstd::prelude::*;
use crate::bytes::{sub_vec, spec_contains_byte, contains_byte};

verus! {

/// Is the byte at `i` part of a word: inside the line and no separator?
pub open spec fn is_word_at(line: Seq<u8>, seps: Seq<u8>, i: int) -> bool {
    0 <= i < line.len() && !spec_contains_byte(seps, line[i])
}

/// Start of the word around `x`: the lowest index from which word bytes
/// run unbroken to `x`.
pub open spec fn spec_word_start(line: Seq<u8>, seps: Seq<u8>, x: int) -> int
    decreases x,
{
    if x <= 0 {
        0
    } else if is_word_at(line, seps, x - 1) {
        spec_word_start(line, seps, x - 1)
    } else {
        x
    }
}

/// End of the word around `x`: one past its last unbroken word byte.
pub open spec fn spec_word_end(line: Seq<u8>, seps: Seq<u8>, x: int) -> int
    decreases line.len() - x,
{
    if x < 0 || x >= line.len() {
        x
    } else if is_word_at(line, seps, x) {
        spec_word_end(line, seps, x + 1)
    } else {
        x
    }
}

/// The word under position `(x, y)` of the text, or nothing when the
/// position is out of range or rests on a separator.
pub open spec fn spec_grid_word(lines: Seq<Seq<u8>>, seps: Seq<u8>, x: int, y: int) -> Seq<u8> {
    if 0 <= y < lines.len() && is_word_at(lines[y], seps, x) {
        lines[y].subrange(
            spec_word_start(lines[y], seps, x),
            spec_word_end(lines[y], seps, x),
        )
    } else {
        Seq::empty()
    }
}

proof fn lemma_word_start_bounds(line: Seq<u8>, seps: Seq<u8>, x: int)
    requires
        0 <= x,
    ensures
        0 <= spec_word_start(line, seps, x) <= x,
    decreases x,
{
    if x > 0 && is_word_at(line, seps, x - 1) {
        lemma_word_start_bounds(line, seps, x - 1);
    }
}

proof fn lemma_word_end_bounds(line: Seq<u8>, seps: Seq<u8>, x: int)
    requires
        x <= line.len(),
    ensures
        x <= spec_word_end(line, seps, x) <= line.len(),
    decreases line.len() - x,
{
    if 0 <= x < line.len() && is_word_at(line, seps, x) {
        lemma_word_end_bounds(line, seps, x + 1);
    }
}

/// The word under the position, for the word-under-cursor placeholders.
pub fn format_grid_word(lines: &Vec<Vec<u8>>, seps: &[u8], x: usize, y: usize) -> (r: Vec<u8>)
    ensures
        r@ == spec_grid_word(
            lines@.map(|i: int, l: Vec<u8>| l@),
            seps@,
            x as int,
            y as int,
        ),
{
    let ghost glines = lines@.map(|i: int, l: Vec<u8>| l@);
    if y >= lines.len() {
        return Vec::new();
    }
    let line = &lines[y];
    proof {
        assert(glines[y as int] == line@);
    }
    if x >= line.len() || contains_byte(seps, line[x]) {
        return Vec::new();
    }
    let mut start: usize = x;
    while start > 0 && !contains_byte(seps, line[start - 1])
        invariant
            start <= x < line@.len(),
            spec_word_start(line@, seps@, start as int) == spec_word_start(
                line@,
                seps@,
                x as int,
            ),
        decreases start,
    {
        start = start - 1;
    }
    let mut end: usize = x;
    while end < line.len() && !contains_byte(seps, line[end])
        invariant
            x <= end <= line@.len(),
            spec_word_end(line@, seps@, end as int) == spec_word_end(line@, seps@, x as int),
        decreases line@.len() - end,
    {
        end = end + 1;
    }
    proof {
        lemma_word_start_bounds(line@, seps@, x as int);
        lemma_word_end_bounds(line@, seps@, x as int);
        assert(spec_word_start(line@, seps@, start as int) == start as int);
        assert(spec_word_end(line@, seps@, end as int) == end as int);
    }
    sub_vec(line.as_slice(), start, end)
}

/// The text of line `y`, or nothing when it is out of range.
pub open spec fn spec_grid_line(lines: Seq<Seq<u8>>, y: int) -> Seq<u8> {
    if 0 <= y < lines.len() {
        lines[y]
    } else {
        Seq::empty()
    }
}

pub fn format_grid_line(lines: &Vec<Vec<u8>>, y: usize) -> (r: Vec<u8>)
    ensures
        r@ == spec_grid_line(lines@.map(|i: int, l: Vec<u8>| l@), y as int),
{
    if y >= lines.len() {
        return Vec::new();
    }
    crate::bytes::to_vec(lines[y].as_slice())
}

} // verus!
