//! The model of copying a stencil into a grid at an offset and a rotation,
//! clipped to the grid.

use crate::pattern::{turned_height, turned_index, turned_width, Stencil};
use crate::rules::{lemma_reseeding_keeps_covered, Grid};
use crate::topology::{cell_index, in_neighbourhood, lemma_coords, lemma_index_of_coords};
use vstd::prelude::*;

verus! {

/// The number of rows or columns of a stencil of the given `extent` that fall
/// inside a grid of the given `limit` when the stencil is placed at `offset`.
pub open spec fn clipped(offset: int, extent: int, limit: int) -> int {
    vstd::math::min(offset + extent, limit) - offset
}

/// Where a stencil lands in a grid: the top left corner of the destination
/// block, the size of the block after clipping, and the rotation.
pub struct Placement {
    pub row: int,
    pub col: int,
    pub rows: int,
    pub cols: int,
    pub angle: u32,
}

impl Placement {
    /// The placement of stencil `p`, turned by `angle`, with its top left
    /// corner at (`row`, `col`) of grid `g`.
    pub open spec fn of(g: Grid, p: Stencil, row: int, col: int, angle: u32) -> Placement {
        Placement {
            row,
            col,
            rows: clipped(row, turned_height(p.width as int, p.height as int, angle), g.height as int),
            cols: clipped(col, turned_width(p.width as int, p.height as int, angle), g.width as int),
            angle,
        }
    }

    /// The block lies inside a grid of the given dimensions.
    pub open spec fn fits(self, width: int, height: int) -> bool {
        &&& 0 <= self.row
        &&& 0 <= self.col
        &&& 0 <= self.rows
        &&& 0 <= self.cols
        &&& self.row + self.rows <= height
        &&& self.col + self.cols <= width
    }

    /// Whether cell `index` of a grid `width` cells wide lies in the block, at
    /// an offset that comes before (`r`, `c`) in row-major order.
    pub open spec fn covers(self, width: int, index: int, r: int, c: int) -> bool {
        let a = index / width - self.row;
        let b = index % width - self.col;
        0 <= a < self.rows && 0 <= b < self.cols && (a < r || (a == r && b < c))
    }

    /// Whether cell `index` is, or neighbours, a cell that `covers` holds of.
    pub open spec fn near_covered(self, width: int, height: int, index: int, r: int, c: int) -> bool {
        exists|j: int|
            0 <= j < width * height && #[trigger] self.covers(width, j, r, c) && in_neighbourhood(
                index,
                j,
                width,
                height,
            )
    }
}

/// Grid `g` after the cells of the block that come before offset (`r`, `c`)
/// have been copied from stencil `p`: each such cell has the state of its
/// source cell in the turned stencil and is marked active together with its
/// neighbours; every other cell and mark is kept.
pub open spec fn stamped_upto(g: Grid, p: Stencil, at: Placement, r: int, c: int) -> Grid {
    Grid {
        cells: Seq::new(
            g.cells.len(),
            |i: int|
                if at.covers(g.width as int, i, r, c) {
                    p.cells[turned_index(
                        p.width as int,
                        p.height as int,
                        i / (g.width as int) - at.row,
                        i % (g.width as int) - at.col,
                        at.angle,
                    )]
                } else {
                    g.cells[i]
                },
        ),
        active: Seq::new(
            g.active.len(),
            |i: int|
                g.active[i] || at.near_covered(g.width as int, g.height as int, i, r, c),
        ),
        ..g
    }
}

/// Grid `g` after stencil `p`, turned by `angle`, has been copied into it with
/// its top left corner at (`row`, `col`), clipped to the grid.
pub open spec fn stamped(g: Grid, p: Stencil, row: int, col: int, angle: u32) -> Grid {
    let at = Placement::of(g, p, row, col, angle);
    stamped_upto(g, p, at, at.rows, 0)
}

/// Nothing is copied before the first offset.
pub proof fn lemma_stamp_start(g: Grid, p: Stencil, at: Placement)
    ensures
        stamped_upto(g, p, at, 0, 0) == g,
{
    let s = stamped_upto(g, p, at, 0, 0);
    assert(s.cells =~= g.cells);
    assert(s.active =~= g.active);
}

/// Copying one more cell of a row is a `put` of that cell.
pub proof fn lemma_stamp_step(g: Grid, p: Stencil, at: Placement, r: int, c: int)
    requires
        g.wf(),
        at.fits(g.width as int, g.height as int),
        0 <= r < at.rows,
        0 <= c < at.cols,
    ensures
        stamped_upto(g, p, at, r, c + 1) == stamped_upto(g, p, at, r, c).put(
            cell_index(g.width as int, at.row + r, at.col + c),
            p.cells[turned_index(p.width as int, p.height as int, r, c, at.angle)],
        ),
{
    let w = g.width as int;
    let h = g.height as int;
    let idx = cell_index(w, at.row + r, at.col + c);
    let before = stamped_upto(g, p, at, r, c);
    let after = stamped_upto(g, p, at, r, c + 1);
    let value = p.cells[turned_index(p.width as int, p.height as int, r, c, at.angle)];
    lemma_index_of_coords(w, h, at.row + r, at.col + c);
    assert forall|j: int| 0 <= j < w * h implies #[trigger] at.covers(w, j, r, c + 1) == (at.covers(
        w,
        j,
        r,
        c,
    ) || j == idx) by {
        lemma_coords(j, w, h);
    }
    assert forall|i: int| 0 <= i < w * h implies after.active[i] == (before.active[i]
        || in_neighbourhood(i, idx, w, h)) by {
        if at.near_covered(w, h, i, r, c + 1) {
            let j = choose|j: int|
                0 <= j < w * h && #[trigger] at.covers(w, j, r, c + 1) && in_neighbourhood(
                    i,
                    j,
                    w,
                    h,
                );
            if j != idx {
                assert(at.covers(w, j, r, c));
            }
        }
        if at.near_covered(w, h, i, r, c) {
            let j = choose|j: int|
                0 <= j < w * h && #[trigger] at.covers(w, j, r, c) && in_neighbourhood(i, j, w, h);
            assert(at.covers(w, j, r, c + 1));
        }
        if in_neighbourhood(i, idx, w, h) {
            assert(at.covers(w, idx, r, c + 1));
        }
    }
    assert(after.cells =~= before.put(idx, value).cells);
    assert(after.active =~= before.put(idx, value).active);
}

/// After the last cell of a row comes the first cell of the next.
pub proof fn lemma_stamp_row_end(g: Grid, p: Stencil, at: Placement, r: int)
    requires
        g.wf(),
    ensures
        stamped_upto(g, p, at, r, at.cols) == stamped_upto(g, p, at, r + 1, 0),
{
    let w = g.width as int;
    let h = g.height as int;
    let before = stamped_upto(g, p, at, r, at.cols);
    let after = stamped_upto(g, p, at, r + 1, 0);
    assert forall|i: int| 0 <= i < w * h implies at.near_covered(w, h, i, r, at.cols)
        == at.near_covered(w, h, i, r + 1, 0) by {
        if at.near_covered(w, h, i, r, at.cols) {
            let j = choose|j: int|
                0 <= j < w * h && #[trigger] at.covers(w, j, r, at.cols) && in_neighbourhood(
                    i,
                    j,
                    w,
                    h,
                );
            assert(at.covers(w, j, r + 1, 0));
        }
        if at.near_covered(w, h, i, r + 1, 0) {
            let j = choose|j: int|
                0 <= j < w * h && #[trigger] at.covers(w, j, r + 1, 0) && in_neighbourhood(
                    i,
                    j,
                    w,
                    h,
                );
            assert(at.covers(w, j, r, at.cols));
        }
    }
    assert(before.cells =~= after.cells);
    assert(before.active =~= after.active);
}

/// Stamping a stencil keeps a covered grid covered.
pub proof fn lemma_stamped_keeps_covered(g: Grid, p: Stencil, row: int, col: int, angle: u32)
    requires
        g.wf(),
        g.covered(),
    ensures
        stamped(g, p, row, col, angle).wf(),
        stamped(g, p, row, col, angle).covered(),
{
    let after = stamped(g, p, row, col, angle);
    let at = Placement::of(g, p, row, col, angle);
    let w = g.width as int;
    let h = g.height as int;
    assert forall|i: int, j: int|
        0 <= i < g.cells.len() && 0 <= j < g.cells.len() && after.cells[j] != g.cells[j]
            && #[trigger] in_neighbourhood(i, j, w, h) implies after.active[i] by {
        assert(at.covers(w, j, at.rows, 0));
        assert(at.near_covered(w, h, i, at.rows, 0));
    }
    lemma_reseeding_keeps_covered(g, after);
}

} // verus!
