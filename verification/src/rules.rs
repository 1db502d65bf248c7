//! The transition rule of the automaton and the model of a grid that tracks
//! which of its cells may change.

use crate::error::GridError;
use crate::topology::{
    cell_index, in_neighbourhood, lemma_neighbourhood_symmetric, lemma_neighbours_in_grid,
    neighbour_indices, step_back, step_forth, valid_dims,
};
use vstd::prelude::*;

verus! {

/// One for a live cell, zero for a dead one.
pub open spec fn bit(alive: bool) -> nat {
    if alive {
        1
    } else {
        0
    }
}

/// How many of the first `n` cells named by `indices` are alive.
pub open spec fn alive_among(cells: Seq<bool>, indices: Seq<int>, n: int) -> nat
    decreases n,
{
    if n <= 0 {
        0
    } else {
        alive_among(cells, indices, n - 1) + bit(cells[indices[n - 1]])
    }
}

/// The live neighbours of cell `index`, each of the eight looked up on its own.
pub open spec fn live_neighbours(cells: Seq<bool>, width: int, height: int, index: int) -> nat {
    let row = index / width;
    let col = index % width;
    let north = step_back(row, height);
    let south = step_forth(row, height);
    let west = step_back(col, width);
    let east = step_forth(col, width);
    bit(cells[cell_index(width, north, west)]) + bit(cells[cell_index(width, north, col)]) + bit(
        cells[cell_index(width, north, east)],
    ) + bit(cells[cell_index(width, row, west)]) + bit(cells[cell_index(width, row, east)]) + bit(
        cells[cell_index(width, south, west)],
    ) + bit(cells[cell_index(width, south, col)]) + bit(cells[cell_index(width, south, east)])
}

/// The state of a cell in the next generation, from its state and the number
/// of its live neighbours: a live cell with fewer than two or more than three
/// dies, a dead cell with exactly three comes alive, any other cell stays.
pub open spec fn rule(alive: bool, n: nat) -> bool {
    if alive && n < 2 {
        false
    } else if alive && n > 3 {
        false
    } else if !alive && n == 3 {
        true
    } else {
        alive
    }
}

/// The state of cell `index` one generation after `cells`.
pub open spec fn next_state(cells: Seq<bool>, width: int, height: int, index: int) -> bool {
    rule(cells[index], live_neighbours(cells, width, height, index))
}

/// The generation after `cells`, every cell evaluated.
pub open spec fn life_step(cells: Seq<bool>, width: int, height: int) -> Seq<bool> {
    Seq::new(cells.len(), |i: int| next_state(cells, width, height, i))
}

/// `cells` after `n` generations, every cell evaluated in each.
pub open spec fn generations(cells: Seq<bool>, width: int, height: int, n: nat) -> Seq<bool>
    decreases n,
{
    if n == 0 {
        cells
    } else {
        life_step(generations(cells, width, height, (n - 1) as nat), width, height)
    }
}

/// The cells of a sparse grid of `n` cells: alive where the index is a
/// multiple of `scarcity`.
pub open spec fn sparse_cells(n: nat, scarcity: int) -> Seq<bool> {
    Seq::new(n, |i: int| i % scarcity == 0)
}

/// The cells of the fixed seed pattern on `n` cells: alive where the index is
/// a multiple of two or of seven.
pub open spec fn patterned_cells(n: nat) -> Seq<bool> {
    Seq::new(n, |i: int| i % 2 == 0 || i % 7 == 0)
}

/// `cells` with the cell at `index` inverted.
pub open spec fn toggled(cells: Seq<bool>, index: int) -> Seq<bool> {
    cells.update(index, !cells[index])
}

/// `marks` with cell `index` and its eight neighbours marked.
pub open spec fn seeded(marks: Seq<bool>, index: int, width: int, height: int) -> Seq<bool> {
    Seq::new(marks.len(), |i: int| marks[i] || in_neighbourhood(i, index, width, height))
}

/// Whether one of the first `bound` pairs of `coords`, read as (row, column),
/// names cell `index`.
pub open spec fn listed(coords: Seq<(usize, usize)>, bound: int, width: int, index: int) -> bool {
    exists|k: int|
        0 <= k < bound && cell_index(width, (#[trigger] coords[k]).0 as int, coords[k].1 as int)
            == index
}

/// Whether cell `index` is, or neighbours, a cell named by one of the first
/// `bound` pairs of `coords`.
pub open spec fn near_listed(
    coords: Seq<(usize, usize)>,
    bound: int,
    width: int,
    height: int,
    index: int,
) -> bool {
    exists|k: int|
        0 <= k < bound && in_neighbourhood(
            index,
            cell_index(width, (#[trigger] coords[k]).0 as int, coords[k].1 as int),
            width,
            height,
        )
}

/// Whether every pair of `coords` names a cell of a grid of the given size.
pub open spec fn all_inside(coords: Seq<(usize, usize)>, width: int, height: int) -> bool {
    forall|k: int|
        0 <= k < coords.len() ==> (#[trigger] coords[k]).0 < height && coords[k].1 < width
}

/// The model of a universe: its dimensions, the state of each cell in
/// row-major order, and for each cell whether it is marked active, that is,
/// due for evaluation in the next tick.
pub struct Grid {
    pub width: nat,
    pub height: nat,
    pub cells: Seq<bool>,
    pub active: Seq<bool>,
}

impl Grid {
    /// The dimensions are valid and both sequences have one entry per cell.
    pub open spec fn wf(self) -> bool {
        &&& valid_dims(self.width as int, self.height as int)
        &&& self.cells.len() == self.width * self.height
        &&& self.active.len() == self.width * self.height
    }

    /// The number of cells.
    pub open spec fn size(self) -> nat {
        self.width * self.height
    }

    /// The grid of `width` by `height` cells in which every cell is dead and
    /// none is active.
    pub open spec fn blank(width: nat, height: nat) -> Grid {
        Grid {
            width,
            height,
            cells: Seq::new(width * height, |i: int| false),
            active: Seq::new(width * height, |i: int| false),
        }
    }

    /// The number of cells of a grid of `width` by `height`, or why no such
    /// grid can be made: `InvalidArgument` for a zero dimension,
    /// `AllocationFailure` for more cells than the machine word counts.
    pub open spec fn size_of(width: nat, height: nat) -> Result<usize, GridError> {
        if width == 0 || height == 0 {
            Err(GridError::InvalidArgument)
        } else if width * height > usize::MAX {
            Err(GridError::AllocationFailure)
        } else {
            Ok((width * height) as usize)
        }
    }

    /// The grid with cell `index` inverted and marked active together with its
    /// eight neighbours.
    pub open spec fn toggle(self, index: int) -> Grid {
        Grid {
            cells: toggled(self.cells, index),
            active: seeded(self.active, index, self.width as int, self.height as int),
            ..self
        }
    }

    /// The grid with cell `index` set to `state` and marked active together
    /// with its eight neighbours.
    pub open spec fn put(self, index: int, state: bool) -> Grid {
        Grid {
            cells: self.cells.update(index, state),
            active: seeded(self.active, index, self.width as int, self.height as int),
            ..self
        }
    }

    /// The grid of the given dimensions and cells in which every cell is
    /// marked active.
    pub open spec fn filled(width: nat, height: nat, cells: Seq<bool>) -> Grid {
        Grid { width, height, cells, active: Seq::new(width * height, |i: int| true) }
    }

    /// The grid with the cells named by the first `bound` pairs of `coords`
    /// alive and marked active together with their neighbours; every other
    /// cell and mark is kept.
    pub open spec fn with_alive(self, coords: Seq<(usize, usize)>, bound: int) -> Grid {
        Grid {
            cells: Seq::new(
                self.cells.len(),
                |i: int| self.cells[i] || listed(coords, bound, self.width as int, i),
            ),
            active: Seq::new(
                self.active.len(),
                |i: int|
                    self.active[i] || near_listed(
                        coords,
                        bound,
                        self.width as int,
                        self.height as int,
                        i,
                    ),
            ),
            ..self
        }
    }

    /// Whether the active cell `j` changes state in the coming tick.
    pub open spec fn changes(self, j: int) -> bool {
        &&& 0 <= j < self.cells.len()
        &&& self.active[j]
        &&& next_state(self.cells, self.width as int, self.height as int, j) != self.cells[j]
    }

    /// Whether cell `i` is, or neighbours, a cell below `bound` that changes
    /// state in the coming tick.
    pub open spec fn woken(self, i: int, bound: int) -> bool {
        exists|j: int|
            0 <= j < bound && #[trigger] self.changes(j) && in_neighbourhood(
                i,
                j,
                self.width as int,
                self.height as int,
            )
    }

    /// The cells after one tick: an active cell follows the rule, any other
    /// cell keeps its state.
    pub open spec fn ticked_cells(self) -> Seq<bool> {
        Seq::new(
            self.cells.len(),
            |i: int|
                if self.active[i] {
                    next_state(self.cells, self.width as int, self.height as int, i)
                } else {
                    self.cells[i]
                },
        )
    }

    /// The active marks after one tick: exactly the cells that changed state
    /// and their neighbours.
    pub open spec fn ticked_active(self) -> Seq<bool> {
        Seq::new(self.cells.len(), |i: int| self.woken(i, self.cells.len() as int))
    }

    /// The grid after one tick.
    pub open spec fn tick(self) -> Grid {
        Grid {
            width: self.width,
            height: self.height,
            cells: self.ticked_cells(),
            active: self.ticked_active(),
        }
    }

    /// The grid after `n` ticks.
    pub open spec fn ticks(self, n: nat) -> Grid
        decreases n,
    {
        if n == 0 {
            self
        } else {
            self.ticks((n - 1) as nat).tick()
        }
    }

    /// Every cell that is not marked active keeps its state under the rule.
    pub open spec fn covered(self) -> bool {
        forall|i: int|
            0 <= i < self.cells.len() && !self.active[i] ==> #[trigger] next_state(
                self.cells,
                self.width as int,
                self.height as int,
                i,
            ) == self.cells[i]
    }
}

/// Counting the live neighbours one by one gives the same number as counting
/// them along the array of neighbour indices.
pub proof fn lemma_neighbour_counts_agree(cells: Seq<bool>, width: int, height: int, index: int)
    ensures
        live_neighbours(cells, width, height, index) == alive_among(
            cells,
            neighbour_indices(index, width, height),
            8,
        ),
{
    reveal_with_fuel(alive_among, 9);
}

/// Toggling the same cell twice gives back the grid as it was: the cell has
/// its first state again and no other cell has changed.
pub proof fn lemma_toggle_twice(cells: Seq<bool>, index: int)
    requires
        0 <= index < cells.len(),
    ensures
        toggled(toggled(cells, index), index) == cells,
        toggled(cells, index)[index] == !cells[index],
        forall|i: int| 0 <= i < cells.len() && i != index ==> toggled(cells, index)[i] == cells[i],
{
    assert(toggled(toggled(cells, index), index) =~= cells);
}

/// The next state of a cell depends only on the cell and its neighbourhood.
pub proof fn lemma_next_state_local(
    a: Seq<bool>,
    b: Seq<bool>,
    width: int,
    height: int,
    index: int,
)
    requires
        1 <= width,
        1 <= height,
        a.len() == width * height,
        b.len() == width * height,
        0 <= index < width * height,
        forall|j: int|
            0 <= j < width * height && in_neighbourhood(j, index, width, height) ==> a[j] == b[j],
    ensures
        next_state(a, width, height, index) == next_state(b, width, height, index),
{
    lemma_neighbours_in_grid(index, width, height);
    let s = neighbour_indices(index, width, height);
    assert forall|k: int| 0 <= k < 8 implies a[#[trigger] s[k]] == b[s[k]] by {
        assert(s.contains(s[k]));
    }
    assert(s[0] == s[0] && s[1] == s[1] && s[2] == s[2] && s[3] == s[3] && s[4] == s[4] && s[5]
        == s[5] && s[6] == s[6] && s[7] == s[7]);
}

/// A cell is listed among the first `bound + 1` pairs when it is listed among
/// the first `bound` or is named by the pair at `bound`; likewise for cells
/// near a listed one.
pub proof fn lemma_listed_step(
    coords: Seq<(usize, usize)>,
    bound: int,
    width: int,
    height: int,
    index: int,
)
    requires
        0 <= bound < coords.len(),
    ensures
        listed(coords, bound + 1, width, index) == (listed(coords, bound, width, index)
            || cell_index(width, coords[bound].0 as int, coords[bound].1 as int) == index),
        near_listed(coords, bound + 1, width, height, index) == (near_listed(
            coords,
            bound,
            width,
            height,
            index,
        ) || in_neighbourhood(
            index,
            cell_index(width, coords[bound].0 as int, coords[bound].1 as int),
            width,
            height,
        )),
{
    let at = |k: int| cell_index(width, coords[k].0 as int, coords[k].1 as int);
    if listed(coords, bound + 1, width, index) {
        let k = choose|k: int|
            0 <= k < bound + 1 && cell_index(
                width,
                (#[trigger] coords[k]).0 as int,
                coords[k].1 as int,
            ) == index;
        if k < bound {
            assert(listed(coords, bound, width, index));
        }
    }
    if listed(coords, bound, width, index) {
        let k = choose|k: int|
            0 <= k < bound && cell_index(width, (#[trigger] coords[k]).0 as int, coords[k].1 as int)
                == index;
        assert(0 <= k < bound + 1 && at(k) == index);
    }
    if at(bound) == index {
        assert(cell_index(width, coords[bound].0 as int, coords[bound].1 as int) == index);
        assert(listed(coords, bound + 1, width, index));
    }
    if near_listed(coords, bound + 1, width, height, index) {
        let k = choose|k: int|
            0 <= k < bound + 1 && in_neighbourhood(
                index,
                cell_index(width, (#[trigger] coords[k]).0 as int, coords[k].1 as int),
                width,
                height,
            );
        if k < bound {
            assert(near_listed(coords, bound, width, height, index));
        }
    }
    if near_listed(coords, bound, width, height, index) {
        let k = choose|k: int|
            0 <= k < bound && in_neighbourhood(
                index,
                cell_index(width, (#[trigger] coords[k]).0 as int, coords[k].1 as int),
                width,
                height,
            );
        assert(0 <= k < bound + 1 && in_neighbourhood(index, at(k), width, height));
    }
    if in_neighbourhood(index, at(bound), width, height) {
        assert(in_neighbourhood(
            index,
            cell_index(width, coords[bound].0 as int, coords[bound].1 as int),
            width,
            height,
        ));
        assert(near_listed(coords, bound + 1, width, height, index));
    }
}

/// Raising the bound of `woken` by one adds exactly the cell at the old bound.
pub proof fn lemma_woken_step(g: Grid, i: int, bound: int)
    requires
        0 <= bound,
    ensures
        g.woken(i, bound + 1) == (g.woken(i, bound) || (g.changes(bound) && in_neighbourhood(
            i,
            bound,
            g.width as int,
            g.height as int,
        ))),
{
    let w = g.width as int;
    let h = g.height as int;
    if g.woken(i, bound + 1) {
        let j = choose|j: int|
            0 <= j < bound + 1 && #[trigger] g.changes(j) && in_neighbourhood(i, j, w, h);
        if j < bound {
            assert(g.woken(i, bound));
        }
    }
    if g.woken(i, bound) {
        let j = choose|j: int|
            0 <= j < bound && #[trigger] g.changes(j) && in_neighbourhood(i, j, w, h);
        assert(0 <= j < bound + 1 && g.changes(j) && in_neighbourhood(i, j, w, h));
    }
    if g.changes(bound) && in_neighbourhood(i, bound, w, h) {
        assert(g.woken(i, bound + 1));
    }
}

/// One tick of a covered grid is one full generation, and leaves the grid
/// covered.
pub proof fn lemma_tick_is_generation(g: Grid)
    requires
        g.wf(),
        g.covered(),
    ensures
        g.tick().wf(),
        g.tick().covered(),
        g.tick().cells == life_step(g.cells, g.width as int, g.height as int),
{
    let w = g.width as int;
    let h = g.height as int;
    let t = g.tick();
    assert(t.cells =~= life_step(g.cells, w, h));
    assert forall|i: int| 0 <= i < t.cells.len() && !t.active[i] implies #[trigger] next_state(
        t.cells,
        w,
        h,
        i,
    ) == t.cells[i] by {
        assert(!g.woken(i, g.cells.len() as int));
        assert forall|j: int| 0 <= j < w * h && in_neighbourhood(j, i, w, h) implies t.cells[j]
            == g.cells[j] by {
            lemma_neighbourhood_symmetric(i, j, w, h);
            if g.changes(j) {
                assert(in_neighbourhood(i, j, w, h));
                assert(false);
            }
        }
        lemma_next_state_local(t.cells, g.cells, w, h, i);
        assert(in_neighbourhood(i, i, w, h));
    }
}

/// Ticking with active-cell tracking agrees with full recomputation: from a
/// covered grid, `n` ticks give the cells of `n` full generations.
pub proof fn lemma_ticks_are_generations(g: Grid, n: nat)
    requires
        g.wf(),
        g.covered(),
    ensures
        g.ticks(n).wf(),
        g.ticks(n).covered(),
        g.ticks(n).width == g.width,
        g.ticks(n).height == g.height,
        g.ticks(n).cells == generations(g.cells, g.width as int, g.height as int, n),
    decreases n,
{
    if n > 0 {
        lemma_ticks_are_generations(g, (n - 1) as nat);
        lemma_tick_is_generation(g.ticks((n - 1) as nat));
    }
}

/// A grid in which every cell is marked active is covered.
pub proof fn lemma_all_active_is_covered(g: Grid)
    requires
        forall|i: int| 0 <= i < g.cells.len() ==> g.active[i],
    ensures
        g.covered(),
{
}

/// A covered grid stays covered when cells change and every changed cell is
/// marked active together with its neighbours, and no mark is removed.
pub proof fn lemma_reseeding_keeps_covered(g: Grid, after: Grid)
    requires
        g.wf(),
        after.wf(),
        g.covered(),
        after.width == g.width,
        after.height == g.height,
        forall|i: int| 0 <= i < g.cells.len() && g.active[i] ==> after.active[i],
        forall|i: int, j: int|
            0 <= i < g.cells.len() && 0 <= j < g.cells.len() && after.cells[j] != g.cells[j]
                && #[trigger] in_neighbourhood(i, j, g.width as int, g.height as int)
                ==> after.active[i],
    ensures
        after.covered(),
{
    let w = g.width as int;
    let h = g.height as int;
    assert forall|i: int|
        0 <= i < after.cells.len() && !after.active[i] implies #[trigger] next_state(
        after.cells,
        w,
        h,
        i,
    ) == after.cells[i] by {
        assert forall|j: int| 0 <= j < w * h && in_neighbourhood(j, i, w, h) implies after.cells[j]
            == g.cells[j] by {
            lemma_neighbourhood_symmetric(i, j, w, h);
            if after.cells[j] != g.cells[j] {
                assert(in_neighbourhood(i, j, w, h));
            }
        }
        lemma_next_state_local(after.cells, g.cells, w, h, i);
        assert(in_neighbourhood(i, i, w, h));
    }
}

/// The blank grid is covered: a dead cell among dead cells stays dead.
pub proof fn lemma_blank_is_covered(width: nat, height: nat)
    requires
        valid_dims(width as int, height as int),
    ensures
        Grid::blank(width, height).wf(),
        Grid::blank(width, height).covered(),
{
    let g = Grid::blank(width, height);
    let w = width as int;
    let h = height as int;
    assert forall|i: int| 0 <= i < g.cells.len() implies #[trigger] next_state(g.cells, w, h, i)
        == g.cells[i] by {
        lemma_neighbours_in_grid(i, w, h);
        lemma_neighbour_counts_agree(g.cells, w, h, i);
        let s = neighbour_indices(i, w, h);
        assert(!g.cells[s[0]] && !g.cells[s[1]] && !g.cells[s[2]] && !g.cells[s[3]]
            && !g.cells[s[4]] && !g.cells[s[5]] && !g.cells[s[6]] && !g.cells[s[7]]);
        reveal_with_fuel(alive_among, 9);
    }
}

/// Toggling a cell and marking it active with its neighbours keeps a covered
/// grid covered.
pub proof fn lemma_toggle_keeps_covered(g: Grid, index: int)
    requires
        g.wf(),
        g.covered(),
        0 <= index < g.size(),
    ensures
        g.toggle(index).wf(),
        g.toggle(index).covered(),
{
    lemma_reseeding_keeps_covered(g, g.toggle(index));
}

/// Making listed cells alive and marking them active with their neighbours
/// keeps a covered grid covered.
pub proof fn lemma_with_alive_keeps_covered(g: Grid, coords: Seq<(usize, usize)>, bound: int)
    requires
        g.wf(),
        g.covered(),
    ensures
        g.with_alive(coords, bound).wf(),
        g.with_alive(coords, bound).covered(),
{
    let after = g.with_alive(coords, bound);
    let w = g.width as int;
    let h = g.height as int;
    assert forall|i: int, j: int|
        0 <= i < g.cells.len() && 0 <= j < g.cells.len() && after.cells[j] != g.cells[j]
            && #[trigger] in_neighbourhood(i, j, w, h) implies after.active[i] by {
        assert(listed(coords, bound, w, j));
        let k = choose|k: int|
            0 <= k < bound && cell_index(w, (#[trigger] coords[k]).0 as int, coords[k].1 as int)
                == j;
        assert(near_listed(coords, bound, w, h, i));
    }
    lemma_reseeding_keeps_covered(g, after);
}

} // verus!
