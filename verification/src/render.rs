//! The text form of a grid: one line per row, a filled square for a live
//! cell and a hollow square for a dead one.

use crate::topology::cell_index;
use vstd::prelude::*;

verus! {

/// `String::push`: appends the character to the end of the string.
pub assume_specification[ String::push ](s: &mut String, ch: char)
    ensures
        final(s)@ == old(s)@.push(ch),
;

/// The character that stands for a cell: U+25FC for a live cell, U+25FB for
/// a dead one.
pub open spec fn glyph(alive: bool) -> char {
    if alive {
        '\u{25FC}'
    } else {
        '\u{25FB}'
    }
}

/// The first `cols` glyphs of row `row`.
pub open spec fn row_glyphs(cells: Seq<bool>, width: int, row: int, cols: int) -> Seq<char> {
    Seq::new(cols as nat, |c: int| glyph(cells[cell_index(width, row, c)]))
}

/// The text of the first `rows` rows: each row is its `width` glyphs and a
/// line feed.
pub open spec fn rows_text(cells: Seq<bool>, width: int, rows: int) -> Seq<char>
    decreases rows,
{
    if rows <= 0 {
        Seq::empty()
    } else {
        rows_text(cells, width, rows - 1) + row_glyphs(cells, width, rows - 1, width).push('\n')
    }
}

} // verus!
