//! The model of a universe tiled with blinkers at regular intervals.

use crate::pattern::Stencil;
use crate::rules::{lemma_blank_is_covered, lemma_reseeding_keeps_covered, listed, Grid};
use crate::stamp::{stamped, Placement};
use crate::topology::{in_neighbourhood, lemma_coords, valid_dims};
use vstd::arithmetic::div_mod::{
    lemma_div_is_ordered, lemma_fundamental_div_mod, lemma_fundamental_div_mod_converse,
    lemma_mod_multiples_basic, lemma_mod_pos_bound,
};
use vstd::prelude::*;

verus! {

/// Whether the blinker has a live cell at (`r`, `c`) of its 5 by 5 stencil:
/// the three middle cells of the middle row.
pub open spec fn blinker_alive(r: int, c: int) -> bool {
    r == 2 && 1 <= c <= 3
}

/// The stencil of the blinker.
pub open spec fn blinker_stencil() -> Stencil {
    Stencil::of(5, 5, seq![(2, 1), (2, 2), (2, 3)])
}

/// Whether cell `index` lies within the first five rows and columns of the
/// tile of side `spacing` that holds it, that is, where a blinker stencil
/// anchored at the corner of the tile lands.
pub open spec fn in_tile(index: int, width: int, spacing: int) -> bool {
    (index / width) % spacing < 5 && (index % width) % spacing < 5
}

/// Whether cell `index` is, or neighbours, a cell that `in_tile` holds of.
pub open spec fn near_tile(index: int, width: int, height: int, spacing: int) -> bool {
    exists|j: int|
        0 <= j < width * height && #[trigger] in_tile(j, width, spacing) && in_neighbourhood(
            index,
            j,
            width,
            height,
        )
}

/// A universe with a blinker stamped at every multiple of `spacing` in both
/// directions, later stamps overwriting earlier ones: in each tile the cells
/// of a blinker are alive, every cell that a stamp wrote is active together
/// with its neighbours. Where the spacing is not below both dimensions, the
/// universe is blank.
pub open spec fn oscillators(width: nat, height: nat, spacing: int) -> Grid {
    if width > spacing && height > spacing {
        Grid {
            width,
            height,
            cells: Seq::new(
                width * height,
                |i: int|
                    blinker_alive(
                        (i / (width as int)) % spacing,
                        (i % (width as int)) % spacing,
                    ),
            ),
            active: Seq::new(
                width * height,
                |i: int| near_tile(i, width as int, height as int, spacing),
            ),
        }
    } else {
        Grid::blank(width, height)
    }
}

/// Whether (`a`, `b`) comes before (`r`, `c`) in row-major order.
pub open spec fn precedes(a: int, b: int, r: int, c: int) -> bool {
    a < r || (a == r && b < c)
}

/// Whether cell `index` lies in the 5 by 5 block whose corner is the anchor
/// (`a`, `b`), a multiple of `spacing` in each coordinate.
pub open spec fn anchored(index: int, width: int, spacing: int, a: int, b: int) -> bool {
    &&& a % spacing == 0
    &&& b % spacing == 0
    &&& 0 <= a <= index / width < a + 5
    &&& 0 <= b <= index % width < b + 5
}

/// Whether a stamp at an anchor before (`row`, `col`) wrote cell `index`.
pub open spec fn touched(index: int, width: int, spacing: int, row: int, col: int) -> bool {
    exists|a: int, b: int| #[trigger]
        anchored(index, width, spacing, a, b) && precedes(a, b, row, col)
}

/// Whether cell `index` is, or neighbours, a cell that `touched` holds of.
pub open spec fn near_touched(
    index: int,
    width: int,
    height: int,
    spacing: int,
    row: int,
    col: int,
) -> bool {
    exists|j: int|
        0 <= j < width * height && #[trigger] touched(j, width, spacing, row, col)
            && in_neighbourhood(index, j, width, height)
}

/// Whether the anchor of the tile of cell `index` comes before (`row`, `col`),
/// so that no later stamp writes the cell.
pub open spec fn settled(index: int, width: int, spacing: int, row: int, col: int) -> bool {
    let r = index / width;
    let c = index % width;
    precedes(r - r % spacing, c - c % spacing, row, col)
}

/// What holds of cell `i` when the anchors before (`row`, `col`) have been
/// stamped: if it is settled and inside its tile's block it has its final
/// state, if it is outside every block it is dead, and it is active exactly
/// when it is at or next to a cell that was written.
pub open spec fn tiled_at(g: Grid, spacing: int, row: int, col: int, i: int) -> bool {
    &&& (in_tile(i, g.width as int, spacing) && settled(i, g.width as int, spacing, row, col)
        ==> g.cells[i] == blinker_alive(
        (i / (g.width as int)) % spacing,
        (i % (g.width as int)) % spacing,
    ))
    &&& (!in_tile(i, g.width as int, spacing) ==> !g.cells[i])
    &&& g.active[i] == near_touched(i, g.width as int, g.height as int, spacing, row, col)
}

/// What holds of the universe when the anchors before (`row`, `col`) have been
/// stamped: `tiled_at` of every cell.
pub open spec fn tiled_upto(g: Grid, spacing: int, row: int, col: int) -> bool {
    forall|i: int| 0 <= i < g.cells.len() ==> #[trigger] tiled_at(g, spacing, row, col, i)
}

/// A coordinate less than one tile past a multiple of the spacing has that
/// multiple as the corner of its tile.
pub proof fn lemma_offset_from_anchor(x: int, m: int, s: int)
    requires
        0 < s,
        m % s == 0,
        m <= x < m + s,
    ensures
        x % s == x - m,
{
    lemma_fundamental_div_mod(m, s);
    assert(m == (m / s) * s) by (nonlinear_arith)
        requires
            m == s * (m / s) + m % s,
            m % s == 0,
    ;
    lemma_fundamental_div_mod_converse(x, s, m / s, x - m);
}

/// The corner of the tile of a coordinate is a multiple of the spacing, not
/// above the coordinate, and not below any multiple that the coordinate
/// reaches.
pub proof fn lemma_anchor_is_greatest(x: int, m: int, s: int)
    requires
        0 < s,
        m % s == 0,
        0 <= m <= x,
    ensures
        0 <= x % s < s,
        (x - x % s) % s == 0,
        m <= x - x % s,
{
    lemma_mod_pos_bound(x, s);
    lemma_fundamental_div_mod(x, s);
    lemma_fundamental_div_mod(m, s);
    lemma_div_is_ordered(m, x, s);
    lemma_mod_multiples_basic(x / s, s);
    assert(x - x % s == (x / s) * s) by (nonlinear_arith)
        requires
            x == s * (x / s) + x % s,
    ;
    assert(s * (m / s) <= s * (x / s)) by (nonlinear_arith)
        requires
            m / s <= x / s,
            0 < s,
    ;
}

/// A cell within five steps after a multiple of the spacing lies within the
/// first five positions of its tile.
pub proof fn lemma_block_in_tile(x: int, m: int, s: int)
    requires
        0 < s,
        m % s == 0,
        0 <= m <= x < m + 5,
    ensures
        x % s < 5,
{
    if s >= 5 {
        lemma_offset_from_anchor(x, m, s);
    } else {
        lemma_mod_pos_bound(x, s);
    }
}

/// One spacing after an anchor comes the next anchor.
pub proof fn lemma_next_anchor(m: int, s: int)
    requires
        0 < s,
        m % s == 0,
    ensures
        (m + s) % s == 0,
        0int % s == 0,
{
    lemma_fundamental_div_mod(m, s);
    assert(m + s == (m / s + 1) * s + 0) by (nonlinear_arith)
        requires
            m == s * (m / s) + m % s,
            m % s == 0,
    ;
    lemma_fundamental_div_mod_converse(m + s, s, m / s + 1, 0);
    lemma_fundamental_div_mod_converse(0, s, 0, 0);
}

/// The blinker stencil holds the blinker.
pub proof fn lemma_blinker_stencil(r: int, c: int)
    requires
        0 <= r < 5,
        0 <= c < 5,
    ensures
        blinker_stencil().cells[r * 5 + c] == blinker_alive(r, c),
{
    let coords: Seq<(usize, usize)> = seq![(2, 1), (2, 2), (2, 3)];
    let i = r * 5 + c;
    assert(coords[0] == (2usize, 1usize) && coords[1] == (2usize, 2usize) && coords[2] == (
        2usize,
        3usize,
    ));
    if listed(coords, 3, 5, i) {
        let k = choose|k: int|
            0 <= k < 3 && crate::topology::cell_index(
                5,
                (#[trigger] coords[k]).0 as int,
                coords[k].1 as int,
            ) == i;
        assert(blinker_alive(r, c));
    }
    if blinker_alive(r, c) {
        let k = c - 1;
        assert(crate::topology::cell_index(5, coords[k].0 as int, coords[k].1 as int) == i);
        assert(listed(coords, 3, 5, i));
    }
}

/// Before the first stamp the blank universe is tiled.
pub proof fn lemma_tiling_start(width: nat, height: nat, spacing: int)
    requires
        0 < spacing,
        1 <= width,
        1 <= height,
    ensures
        tiled_upto(Grid::blank(width, height), spacing, 0, 0),
{
    let g = Grid::blank(width, height);
    assert forall|i: int| 0 <= i < g.cells.len() implies !settled(i, width as int, spacing, 0, 0)
        && !#[trigger] near_touched(i, width as int, height as int, spacing, 0, 0) by {
        lemma_coords(i, width as int, height as int);
        lemma_anchor_is_greatest(i / (width as int), 0, spacing);
        lemma_anchor_is_greatest(i % (width as int), 0, spacing);
        if near_touched(i, width as int, height as int, spacing, 0, 0) {
            let j = choose|j: int|
                0 <= j < width * height && #[trigger] touched(j, width as int, spacing, 0, 0)
                    && in_neighbourhood(i, j, width as int, height as int);
            let (a, b) = choose|a: int, b: int| #[trigger]
                anchored(j, width as int, spacing, a, b) && precedes(a, b, 0, 0);
            assert(false);
        }
    }
    assert forall|i: int| 0 <= i < g.cells.len() implies #[trigger] tiled_at(
        g,
        spacing,
        0,
        0,
        i,
    ) by {
        assert(!near_touched(i, width as int, height as int, spacing, 0, 0));
    }
}

/// Stamping the blinker at the next anchor keeps the universe tiled.
pub proof fn lemma_tiling_step(g: Grid, spacing: int, row: int, col: int)
    requires
        g.wf(),
        0 < spacing,
        row % spacing == 0,
        col % spacing == 0,
        0 <= row < g.height,
        0 <= col < g.width,
        tiled_upto(g, spacing, row, col),
    ensures
        tiled_upto(stamped(g, blinker_stencil(), row, col, 0), spacing, row, col + spacing),
{
    let w = g.width as int;
    let h = g.height as int;
    let s = spacing;
    let p = blinker_stencil();
    let at = Placement::of(g, p, row, col, 0);
    let after = stamped(g, p, row, col, 0);
    assert forall|j: int| 0 <= j < w * h implies #[trigger] touched(j, w, s, row, col + s) == (
    touched(j, w, s, row, col) || at.covers(w, j, at.rows, 0)) by {
        lemma_coords(j, w, h);
        if touched(j, w, s, row, col + s) {
            let (a, b) = choose|a: int, b: int| #[trigger]
                anchored(j, w, s, a, b) && precedes(a, b, row, col + s);
            if !precedes(a, b, row, col) {
                lemma_offset_from_anchor(b, col, s);
                assert(b == col);
                assert(at.covers(w, j, at.rows, 0));
            }
        }
        if touched(j, w, s, row, col) {
            let (a, b) = choose|a: int, b: int| #[trigger]
                anchored(j, w, s, a, b) && precedes(a, b, row, col);
            assert(anchored(j, w, s, a, b) && precedes(a, b, row, col + s));
        }
        if at.covers(w, j, at.rows, 0) {
            assert(anchored(j, w, s, row, col) && precedes(row, col, row, col + s));
        }
    }
    assert forall|i: int| 0 <= i < after.cells.len() implies #[trigger] tiled_at(
        after,
        s,
        row,
        col + s,
        i,
    ) by {
        assert(tiled_at(g, s, row, col, i));
        lemma_coords(i, w, h);
        let r = i / w;
        let c = i % w;
        lemma_mod_pos_bound(r, s);
        lemma_mod_pos_bound(c, s);
        if at.covers(w, i, at.rows, 0) {
            lemma_block_in_tile(r, row, s);
            lemma_block_in_tile(c, col, s);
            lemma_anchor_is_greatest(r, row, s);
            lemma_anchor_is_greatest(c, col, s);
            if settled(i, w, s, row, col + s) {
                lemma_offset_from_anchor(c - c % s, col, s);
                assert(c - c % s == col);
                assert(r - r % s == row);
                lemma_blinker_stencil(r - row, c - col);
                assert(after.cells[i] == p.cells[(r - row) * 5 + (c - col)]);
            }
        } else {
            assert(after.cells[i] == g.cells[i]);
            assert(g.active[i] == near_touched(i, w, h, s, row, col));
            if in_tile(i, w, s) && settled(i, w, s, row, col + s) && !settled(i, w, s, row, col) {
                lemma_anchor_is_greatest(r, 0, s);
                lemma_anchor_is_greatest(c, 0, s);
                lemma_offset_from_anchor(c - c % s, col, s);
                assert(c - c % s == col);
                assert(r - r % s == row);
                assert(false);
            }
        }
        assert(g.active[i] == near_touched(i, w, h, s, row, col));
        if near_touched(i, w, h, s, row, col + s) {
            let j = choose|j: int|
                0 <= j < w * h && #[trigger] touched(j, w, s, row, col + s) && in_neighbourhood(
                    i,
                    j,
                    w,
                    h,
                );
            if touched(j, w, s, row, col) {
                assert(near_touched(i, w, h, s, row, col));
            } else {
                assert(at.covers(w, j, at.rows, 0));
                assert(at.near_covered(w, h, i, at.rows, 0));
            }
        }
        if near_touched(i, w, h, s, row, col) {
            let j = choose|j: int|
                0 <= j < w * h && #[trigger] touched(j, w, s, row, col) && in_neighbourhood(
                    i,
                    j,
                    w,
                    h,
                );
            assert(touched(j, w, s, row, col + s));
        }
        if at.near_covered(w, h, i, at.rows, 0) {
            let j = choose|j: int|
                0 <= j < w * h && #[trigger] at.covers(w, j, at.rows, 0) && in_neighbourhood(
                    i,
                    j,
                    w,
                    h,
                );
            assert(touched(j, w, s, row, col + s));
        }
    }
}

/// Past the last anchor of a row comes the first anchor of the next row.
pub proof fn lemma_tiling_row_end(g: Grid, spacing: int, row: int, col: int)
    requires
        g.wf(),
        0 < spacing,
        row % spacing == 0,
        0 <= row,
        g.width <= col,
        tiled_upto(g, spacing, row, col),
    ensures
        tiled_upto(g, spacing, row + spacing, 0),
{
    let w = g.width as int;
    let h = g.height as int;
    let s = spacing;
    assert forall|j: int| 0 <= j < w * h implies #[trigger] touched(j, w, s, row, col) == touched(
        j,
        w,
        s,
        row + s,
        0,
    ) by {
        lemma_coords(j, w, h);
        if touched(j, w, s, row, col) {
            let (a, b) = choose|a: int, b: int| #[trigger]
                anchored(j, w, s, a, b) && precedes(a, b, row, col);
            assert(anchored(j, w, s, a, b) && precedes(a, b, row + s, 0));
        }
        if touched(j, w, s, row + s, 0) {
            let (a, b) = choose|a: int, b: int| #[trigger]
                anchored(j, w, s, a, b) && precedes(a, b, row + s, 0);
            if a > row {
                lemma_offset_from_anchor(a, row, s);
            }
            assert(anchored(j, w, s, a, b) && precedes(a, b, row, col));
        }
    }
    assert forall|i: int| 0 <= i < g.cells.len() implies #[trigger] tiled_at(
        g,
        s,
        row + s,
        0,
        i,
    ) by {
        assert(tiled_at(g, s, row, col, i));
        lemma_coords(i, w, h);
        let r = i / w;
        let c = i % w;
        lemma_anchor_is_greatest(r, 0, s);
        lemma_anchor_is_greatest(c, 0, s);
        if settled(i, w, s, row + s, 0) {
            if r - r % s > row {
                lemma_offset_from_anchor(r - r % s, row, s);
            }
            assert(settled(i, w, s, row, col));
        }
        assert(g.active[i] == near_touched(i, w, h, s, row, col));
        if near_touched(i, w, h, s, row, col) {
            let j = choose|j: int|
                0 <= j < w * h && #[trigger] touched(j, w, s, row, col) && in_neighbourhood(
                    i,
                    j,
                    w,
                    h,
                );
            assert(touched(j, w, s, row + s, 0));
        }
        if near_touched(i, w, h, s, row + s, 0) {
            let j = choose|j: int|
                0 <= j < w * h && #[trigger] touched(j, w, s, row + s, 0) && in_neighbourhood(
                    i,
                    j,
                    w,
                    h,
                );
            assert(touched(j, w, s, row, col));
        }
    }
}

/// Once every anchor is stamped the universe is the tiled one.
pub proof fn lemma_tiling_end(g: Grid, spacing: int, row: int)
    requires
        g.wf(),
        0 < spacing < g.width,
        spacing < g.height,
        g.height <= row,
        tiled_upto(g, spacing, row, 0),
    ensures
        g == oscillators(g.width, g.height, spacing),
{
    let w = g.width as int;
    let h = g.height as int;
    let s = spacing;
    let o = oscillators(g.width, g.height, spacing);
    assert forall|j: int| 0 <= j < w * h implies #[trigger] touched(j, w, s, row, 0) == in_tile(
        j,
        w,
        s,
    ) by {
        lemma_coords(j, w, h);
        let r = j / w;
        let c = j % w;
        lemma_anchor_is_greatest(r, 0, s);
        lemma_anchor_is_greatest(c, 0, s);
        if touched(j, w, s, row, 0) {
            let (a, b) = choose|a: int, b: int| #[trigger]
                anchored(j, w, s, a, b) && precedes(a, b, row, 0);
            lemma_block_in_tile(r, a, s);
            lemma_block_in_tile(c, b, s);
        }
        if in_tile(j, w, s) {
            assert(anchored(j, w, s, r - r % s, c - c % s) && precedes(
                r - r % s,
                c - c % s,
                row,
                0,
            ));
        }
    }
    assert forall|i: int| 0 <= i < w * h implies g.cells[i] == o.cells[i] && g.active[i]
        == o.active[i] by {
        assert(tiled_at(g, s, row, 0, i));
        lemma_coords(i, w, h);
        let r = i / w;
        let c = i % w;
        lemma_anchor_is_greatest(r, 0, s);
        lemma_anchor_is_greatest(c, 0, s);
        assert(settled(i, w, s, row, 0));
        assert(g.active[i] == near_touched(i, w, h, s, row, 0));
        if near_touched(i, w, h, s, row, 0) {
            let j = choose|j: int|
                0 <= j < w * h && #[trigger] touched(j, w, s, row, 0) && in_neighbourhood(
                    i,
                    j,
                    w,
                    h,
                );
            assert(in_tile(j, w, s));
        }
        if near_tile(i, w, h, s) {
            let j = choose|j: int|
                0 <= j < w * h && #[trigger] in_tile(j, w, s) && in_neighbourhood(i, j, w, h);
            assert(touched(j, w, s, row, 0));
        }
    }
    assert(g.cells =~= o.cells);
    assert(g.active =~= o.active);
}

/// The tiled universe is covered.
pub proof fn lemma_oscillators_covered(width: nat, height: nat, spacing: int)
    requires
        valid_dims(width as int, height as int),
        0 < spacing,
    ensures
        oscillators(width, height, spacing).wf(),
        oscillators(width, height, spacing).covered(),
{
    let g = Grid::blank(width, height);
    let after = oscillators(width, height, spacing);
    let w = width as int;
    let h = height as int;
    lemma_blank_is_covered(width, height);
    if width > spacing && height > spacing {
        assert forall|i: int, j: int|
            0 <= i < g.cells.len() && 0 <= j < g.cells.len() && after.cells[j] != g.cells[j]
                && #[trigger] in_neighbourhood(i, j, w, h) implies after.active[i] by {
            assert(in_tile(j, w, spacing));
            assert(near_tile(i, w, h, spacing));
        }
        lemma_reseeding_keeps_covered(g, after);
    }
}

} // verus!
