//! The universe: a toroidal grid of cells in two packed buffers, with a set of
//! active cells beside each, and the tick that advances it by one generation.

use crate::bitset::bits;
use crate::error::GridError;
use crate::neighbour_iter::NeighbourIter;
use crate::pattern::{
    angle_index, turned_height, turned_index, turned_width, valid_angle, Pattern,
};
use crate::render::{row_glyphs, rows_text};
use crate::rules::{
    alive_among, all_inside, bit, lemma_all_active_is_covered, lemma_blank_is_covered,
    lemma_listed_step, lemma_neighbour_counts_agree, lemma_tick_is_generation,
    lemma_toggle_keeps_covered, lemma_with_alive_keeps_covered, lemma_woken_step, life_step,
    live_neighbours, next_state, patterned_cells, seeded, sparse_cells, toggled, Grid,
};
use crate::stamp::{
    lemma_stamp_row_end, lemma_stamp_start, lemma_stamp_step, lemma_stamped_keeps_covered, stamped,
    stamped_upto, Placement,
};
use crate::tiling::{
    blinker_stencil, lemma_next_anchor, lemma_oscillators_covered, lemma_tiling_end,
    lemma_tiling_row_end, lemma_tiling_start, lemma_tiling_step, oscillators, tiled_upto,
};
use crate::topology::{
    cell_index, lemma_coords, lemma_index_of_coords, lemma_neighbours_in_grid, neighbour_indices,
    valid_dims,
};
use fixedbitset::FixedBitSet;
use vstd::prelude::*;

verus! {

/// A grid of cells on a torus. The cells live in two buffers of which one,
/// selected by `curr_index`, is current; the other receives the next
/// generation during a tick. Each buffer has a set of active cells beside it.
pub struct Universe {
    width: usize,
    height: usize,
    buffers: [FixedBitSet; 2],
    active_cell_buffers: [FixedBitSet; 2],
    curr_index: usize,
}

impl View for Universe {
    type V = Grid;

    closed spec fn view(&self) -> Grid {
        Grid {
            width: self.width as nat,
            height: self.height as nat,
            cells: bits(self.buffers[self.curr_index as int]),
            active: bits(self.active_cell_buffers[self.curr_index as int]),
        }
    }
}

/// Whether `x` is one of the first `k` entries of `s`.
spec fn occurs_before(s: Seq<int>, k: int, x: int) -> bool {
    exists|m: int| 0 <= m < k && #[trigger] s[m] == x
}

impl Universe {
    /// The four buffers have one bit per cell, the selector names one of the
    /// two slots, and the dimensions fit in 32 bits.
    pub closed spec fn inv(&self) -> bool {
        &&& self.curr_index < 2
        &&& self.width <= u32::MAX
        &&& self.height <= u32::MAX
        &&& bits(self.buffers[0]).len() == self.width * self.height
        &&& bits(self.buffers[1]).len() == self.width * self.height
        &&& bits(self.active_cell_buffers[0]).len() == self.width * self.height
        &&& bits(self.active_cell_buffers[1]).len() == self.width * self.height
    }

    /// The universe is consistent and its model is a well-formed grid.
    pub open spec fn wf(&self) -> bool {
        self.inv() && self@.wf()
    }

    /// The linear index of the cell at (`row`, `column`) in a grid `width`
    /// cells wide. The caller keeps the index within the machine word.
    pub fn get_index(width: usize, row: usize, column: usize) -> (index: usize)
        requires
            cell_index(width as int, row as int, column as int) <= usize::MAX,
        ensures
            index == cell_index(width as int, row as int, column as int),
    {
        assert(0 <= row * width) by (nonlinear_arith)
            requires
                0 <= row,
                0 <= width,
        ;
        row * width + column
    }

    /// The eight toroidal neighbours of cell `index` as a fixed array, in the
    /// order NW, N, NE, W, E, SW, S, SE.
    pub fn get_neighbour_array(index: usize, width: usize, height: usize) -> (indices: [usize; 8])
        requires
            valid_dims(width as int, height as int),
            index < width * height,
        ensures
            indices@.map_values(|v: usize| v as int) == neighbour_indices(
                index as int,
                width as int,
                height as int,
            ),
            forall|k: int| 0 <= k < 8 ==> (#[trigger] indices@[k]) < width * height,
    {
        let row = index / width;
        let col = index % width;
        proof {
            lemma_coords(index as int, width as int, height as int);
            lemma_neighbours_in_grid(index as int, width as int, height as int);
        }
        let north = if row == 0 { height - 1 } else { row - 1 };
        let west = if col == 0 { width - 1 } else { col - 1 };
        let east = if col == width - 1 { 0 } else { col + 1 };
        let south = if row == height - 1 { 0 } else { row + 1 };
        proof {
            lemma_index_of_coords(width as int, height as int, north as int, west as int);
            lemma_index_of_coords(width as int, height as int, row as int, west as int);
            lemma_index_of_coords(width as int, height as int, south as int, west as int);
            lemma_index_of_coords(width as int, height as int, north as int, east as int);
            lemma_index_of_coords(width as int, height as int, south as int, east as int);
            lemma_index_of_coords(width as int, height as int, row as int, east as int);
            lemma_index_of_coords(width as int, height as int, north as int, col as int);
            lemma_index_of_coords(width as int, height as int, south as int, col as int);
            assert(north * width >= 0 && row * width >= 0 && south * width >= 0)
                by (nonlinear_arith)
                requires
                    north >= 0,
                    row >= 0,
                    south >= 0,
                    width >= 0,
            ;
        }
        let north_row_idx = north * width;
        let row_idx = row * width;
        let south_row_idx = south * width;
        let indices = [
            north_row_idx + west,
            north_row_idx + col,
            north_row_idx + east,
            row_idx + west,
            row_idx + east,
            south_row_idx + west,
            south_row_idx + col,
            south_row_idx + east,
        ];
        assert(indices@.map_values(|v: usize| v as int) =~= neighbour_indices(
            index as int,
            width as int,
            height as int,
        ));
        indices
    }

    /// Marks the eight neighbours of cell `index` in `active_cells`.
    fn insert_neighbours(active_cells: &mut FixedBitSet, index: usize, width: usize, height: usize)
        requires
            valid_dims(width as int, height as int),
            index < width * height,
            bits(*old(active_cells)).len() == width * height,
        ensures
            bits(*final(active_cells)) == Seq::new(
                (width * height) as nat,
                |i: int|
                    bits(*old(active_cells))[i] || neighbour_indices(
                        index as int,
                        width as int,
                        height as int,
                    ).contains(i),
            ),
    {
        let neighbours = Self::get_neighbour_array(index, width, height);
        let ghost before = bits(*active_cells);
        let ghost around = neighbour_indices(index as int, width as int, height as int);
        let ghost size = width * height;
        let mut k: usize = 0;
        while k < 8
            invariant
                k <= 8,
                size == width * height,
                around == neighbours@.map_values(|v: usize| v as int),
                forall|m: int| 0 <= m < 8 ==> (#[trigger] neighbours@[m]) < size,
                bits(*active_cells).len() == size,
                before.len() == size,
                forall|i: int|
                    0 <= i < size ==> #[trigger] bits(*active_cells)[i] == (before[i]
                        || occurs_before(around, k as int, i)),
            decreases 8 - k,
        {
            let n = neighbours[k];
            let ghost marks = bits(*active_cells);
            active_cells.insert(n);
            proof {
                assert(around[k as int] == n as int);
                assert forall|i: int| 0 <= i < size implies #[trigger] bits(*active_cells)[i] == (
                before[i] || occurs_before(around, k + 1, i)) by {
                    assert(marks[i] == (before[i] || occurs_before(around, k as int, i)));
                    if occurs_before(around, k as int, i) {
                        let m = choose|m: int| 0 <= m < k && around[m] == i;
                        assert(0 <= m < k + 1 && around[m] == i);
                    }
                    if occurs_before(around, k + 1, i) && i != n {
                        let m = choose|m: int| 0 <= m < k + 1 && around[m] == i;
                        assert(0 <= m < k && around[m] == i);
                    }
                }
            }
            k += 1;
        }
        proof {
            assert forall|i: int| 0 <= i < width * height implies bits(*active_cells)[i] == (
            before[i] || around.contains(i)) by {
                assert(bits(*active_cells)[i] == (before[i] || occurs_before(around, 8, i)));
                if around.contains(i) {
                    let m = choose|m: int| 0 <= m < around.len() && around[m] == i;
                    assert(0 <= m < 8 && around[m] == i);
                }
                if occurs_before(around, 8, i) {
                    let m = choose|m: int| 0 <= m < 8 && around[m] == i;
                    assert(0 <= m < around.len() && around[m] == i);
                }
            }
            assert(bits(*active_cells) =~= Seq::new(
                (width * height) as nat,
                |i: int| before[i] || around.contains(i),
            ));
        }
    }

    /// Marks cell `index` and its eight neighbours in `active_cells`.
    fn seed(active_cells: &mut FixedBitSet, index: usize, width: usize, height: usize)
        requires
            valid_dims(width as int, height as int),
            index < width * height,
            bits(*old(active_cells)).len() == width * height,
        ensures
            bits(*final(active_cells)) == seeded(
                bits(*old(active_cells)),
                index as int,
                width as int,
                height as int,
            ),
    {
        active_cells.insert(index);
        Self::insert_neighbours(active_cells, index, width, height);
        assert(bits(*active_cells) =~= seeded(
            bits(*old(active_cells)),
            index as int,
            width as int,
            height as int,
        ));
    }

    /// One for a live cell, zero for a dead one.
    fn as_count(alive: bool) -> (count: u8)
        ensures
            count == bit(alive),
    {
        if alive {
            1
        } else {
            0
        }
    }

    /// How many of the eight cells named by `neighbours` are alive in `cells`.
    fn count_alive(cells: &FixedBitSet, neighbours: &[usize; 8]) -> (count: u8)
        requires
            forall|k: int| 0 <= k < 8 ==> (#[trigger] neighbours@[k]) < bits(*cells).len(),
        ensures
            count == alive_among(bits(*cells), neighbours@.map_values(|v: usize| v as int), 8),
            count <= 8,
    {
        let mut count: u8 = 0;
        for k in 0..8usize
            invariant
                forall|m: int| 0 <= m < 8 ==> (#[trigger] neighbours@[m]) < bits(*cells).len(),
                count == alive_among(
                    bits(*cells),
                    neighbours@.map_values(|v: usize| v as int),
                    k as int,
                ),
                count <= k,
        {
            if cells.contains(neighbours[k]) {
                count += 1;
            }
        }
        count
    }

    /// A universe in which every cell is dead and none is active.
    fn blank(width: usize, height: usize, size: usize) -> (universe: Universe)
        requires
            valid_dims(width as int, height as int),
            width <= u32::MAX,
            height <= u32::MAX,
            size == width * height,
        ensures
            universe.wf(),
            universe@ == Grid::blank(width as nat, height as nat),
            universe@.covered(),
    {
        proof {
            lemma_blank_is_covered(width as nat, height as nat);
        }
        let universe = Universe {
            width,
            height,
            buffers: [FixedBitSet::with_capacity(size), FixedBitSet::with_capacity(size)],
            active_cell_buffers: [
                FixedBitSet::with_capacity(size),
                FixedBitSet::with_capacity(size),
            ],
            curr_index: 0,
        };
        assert(universe@.cells =~= Grid::blank(width as nat, height as nat).cells);
        assert(universe@.active =~= Grid::blank(width as nat, height as nat).active);
        universe
    }

    /// Checks the dimensions of a grid and gives its number of cells.
    fn checked_size(width: u32, height: u32) -> (size: Result<usize, GridError>)
        ensures
            size == Grid::size_of(width as nat, height as nat),
    {
        if width == 0 || height == 0 {
            return Err(GridError::InvalidArgument);
        }
        match (width as usize).checked_mul(height as usize) {
            Some(size) => Ok(size),
            None => Err(GridError::AllocationFailure),
        }
    }

    /// A universe of `width` by `height` dead cells, none of them active.
    ///
    /// Fails with `InvalidArgument` when a dimension is zero, and with
    /// `AllocationFailure` when the cell count does not fit the machine word.
    pub fn new(width: u32, height: u32) -> (result: Result<Universe, GridError>)
        ensures
            match result {
                Ok(universe) => Grid::size_of(width as nat, height as nat).is_ok() && universe.wf()
                    && universe@ == Grid::blank(width as nat, height as nat)
                    && universe@.covered(),
                Err(e) => Grid::size_of(width as nat, height as nat) == Err::<usize, GridError>(e),
            },
    {
        match Self::checked_size(width, height) {
            Ok(size) => Ok(Self::blank(width as usize, height as usize, size)),
            Err(e) => Err(e),
        }
    }

    /// A universe whose cells are the given `states`, in row-major order,
    /// with every cell active. The states are meant to be drawn at random by
    /// the caller, each alive with probability one half.
    ///
    /// Fails as `new` does, and with `InvalidArgument` when `states` does not
    /// hold one state per cell.
    pub fn new_rand(width: u32, height: u32, states: &[bool]) -> (result: Result<
        Universe,
        GridError,
    >)
        ensures
            match result {
                Ok(universe) => Grid::size_of(width as nat, height as nat).is_ok() && states@.len()
                    == width * height && universe.wf() && universe@ == Grid::filled(
                    width as nat,
                    height as nat,
                    states@,
                ) && universe@.covered(),
                Err(e) => Grid::size_of(width as nat, height as nat) == Err::<usize, GridError>(e)
                    || (Grid::size_of(width as nat, height as nat).is_ok() && states@.len() != width
                    * height && e == GridError::InvalidArgument),
            },
    {
        let size = match Self::checked_size(width, height) {
            Ok(size) => size,
            Err(e) => {
                return Err(e);
            },
        };
        if states.len() != size {
            return Err(GridError::InvalidArgument);
        }
        let mut universe = Self::blank(width as usize, height as usize, size);
        let mut i: usize = 0;
        while i < size
            invariant
                i <= size,
                size == width * height,
                states@.len() == size,
                universe.wf(),
                universe@.width == width,
                universe@.height == height,
                forall|j: int| 0 <= j < i ==> #[trigger] universe@.cells[j] == states@[j],
                forall|j: int| 0 <= j < i ==> #[trigger] universe@.active[j],
            decreases size - i,
        {
            universe.put(i, states[i]);
            i += 1;
        }
        proof {
            let g = Grid::filled(width as nat, height as nat, states@);
            assert(universe@.cells =~= g.cells);
            assert(universe@.active =~= g.active);
            lemma_all_active_is_covered(g);
        }
        Ok(universe)
    }

    /// A universe in which the cells whose index is a multiple of `scarcity`
    /// are alive, with every cell active.
    ///
    /// Fails as `new` does, and with `InvalidArgument` when `scarcity` is
    /// zero.
    pub fn new_sparse(width: u32, height: u32, scarcity: u32) -> (result: Result<
        Universe,
        GridError,
    >)
        ensures
            match result {
                Ok(universe) => Grid::size_of(width as nat, height as nat).is_ok() && scarcity != 0
                    && universe.wf() && universe@ == Grid::filled(
                    width as nat,
                    height as nat,
                    sparse_cells((width * height) as nat, scarcity as int),
                ) && universe@.covered(),
                Err(e) => Grid::size_of(width as nat, height as nat) == Err::<usize, GridError>(e)
                    || (Grid::size_of(width as nat, height as nat).is_ok() && scarcity == 0 && e
                    == GridError::InvalidArgument),
            },
    {
        let size = match Self::checked_size(width, height) {
            Ok(size) => size,
            Err(e) => {
                return Err(e);
            },
        };
        if scarcity == 0 {
            return Err(GridError::InvalidArgument);
        }
        let scarcity = scarcity as usize;
        let mut universe = Self::blank(width as usize, height as usize, size);
        let mut i: usize = 0;
        while i < size
            invariant
                i <= size,
                size == width * height,
                scarcity > 0,
                universe.wf(),
                universe@.width == width,
                universe@.height == height,
                forall|j: int|
                    0 <= j < i ==> #[trigger] universe@.cells[j] == (j % (scarcity as int) == 0),
                forall|j: int| 0 <= j < i ==> #[trigger] universe@.active[j],
            decreases size - i,
        {
            let state = i % scarcity == 0;
            universe.put(i, state);
            i += 1;
        }
        proof {
            let g = Grid::filled(
                width as nat,
                height as nat,
                sparse_cells((width * height) as nat, scarcity as int),
            );
            assert(universe@.cells =~= g.cells);
            assert(universe@.active =~= g.active);
            lemma_all_active_is_covered(g);
        }
        Ok(universe)
    }

    /// A universe seeded with a fixed pattern: the cells whose index is a
    /// multiple of two or of seven are alive, and every cell is active.
    ///
    /// Fails as `new` does.
    pub fn new_pattern(width: u32, height: u32) -> (result: Result<Universe, GridError>)
        ensures
            match result {
                Ok(universe) => Grid::size_of(width as nat, height as nat).is_ok() && universe.wf()
                    && universe@ == Grid::filled(
                    width as nat,
                    height as nat,
                    patterned_cells((width * height) as nat),
                ) && universe@.covered(),
                Err(e) => Grid::size_of(width as nat, height as nat) == Err::<usize, GridError>(e),
            },
    {
        let size = match Self::checked_size(width, height) {
            Ok(size) => size,
            Err(e) => {
                return Err(e);
            },
        };
        let mut universe = Self::blank(width as usize, height as usize, size);
        let mut i: usize = 0;
        while i < size
            invariant
                i <= size,
                size == width * height,
                universe.wf(),
                universe@.width == width,
                universe@.height == height,
                forall|j: int|
                    0 <= j < i ==> #[trigger] universe@.cells[j] == (j % 2 == 0 || j % 7 == 0),
                forall|j: int| 0 <= j < i ==> #[trigger] universe@.active[j],
            decreases size - i,
        {
            let state = i % 2 == 0 || i % 7 == 0;
            universe.put(i, state);
            i += 1;
        }
        proof {
            let g = Grid::filled(
                width as nat,
                height as nat,
                patterned_cells((width * height) as nat),
            );
            assert(universe@.cells =~= g.cells);
            assert(universe@.active =~= g.active);
            lemma_all_active_is_covered(g);
        }
        Ok(universe)
    }

    /// A universe tiled with blinkers: a blinker stencil is stamped with its
    /// corner at every cell whose row and column are multiples of `spacing`,
    /// row by row, later stamps overwriting earlier ones. Where `spacing` is
    /// not below both dimensions, nothing is stamped.
    ///
    /// Fails as `new` does, and with `InvalidArgument` when `spacing` is
    /// zero.
    pub fn new_oscillators(width: u32, height: u32, spacing: u32) -> (result: Result<
        Universe,
        GridError,
    >)
        ensures
            match result {
                Ok(universe) => Grid::size_of(width as nat, height as nat).is_ok() && spacing != 0
                    && universe.wf() && universe@ == oscillators(
                    width as nat,
                    height as nat,
                    spacing as int,
                ) && universe@.covered(),
                Err(e) => Grid::size_of(width as nat, height as nat) == Err::<usize, GridError>(e)
                    || (Grid::size_of(width as nat, height as nat).is_ok() && spacing == 0 && e
                    == GridError::InvalidArgument),
            },
    {
        let size = match Self::checked_size(width, height) {
            Ok(size) => size,
            Err(e) => {
                return Err(e);
            },
        };
        if spacing == 0 {
            return Err(GridError::InvalidArgument);
        }
        let mut universe = Self::blank(width as usize, height as usize, size);
        let pattern = Pattern::blinker();
        proof {
            lemma_oscillators_covered(width as nat, height as nat, spacing as int);
        }

        if width > spacing && height > spacing {
            proof {
                lemma_tiling_start(width as nat, height as nat, spacing as int);
                lemma_next_anchor(0, spacing as int);
            }
            let mut row: u64 = 0;
            while row < height as u64
                invariant
                    0 < spacing < width,
                    spacing < height,
                    universe.wf(),
                    pattern.wf(),
                    pattern@ == blinker_stencil(),
                    universe@.width == width,
                    universe@.height == height,
                    (row as int) % (spacing as int) == 0,
                    row < height + spacing,
                    tiled_upto(universe@, spacing as int, row as int, 0),
                decreases height + spacing - row,
            {
                let mut column: u64 = 0;
                while column < width as u64
                    invariant
                        0 < spacing < width,
                        spacing < height,
                        row < height,
                        universe.wf(),
                        pattern.wf(),
                        pattern@ == blinker_stencil(),
                        universe@.width == width,
                        universe@.height == height,
                        (row as int) % (spacing as int) == 0,
                        (column as int) % (spacing as int) == 0,
                        column < width + spacing,
                        tiled_upto(universe@, spacing as int, row as int, column as int),
                    decreases width + spacing - column,
                {
                    proof {
                        lemma_tiling_step(universe@, spacing as int, row as int, column as int);
                        lemma_next_anchor(column as int, spacing as int);
                    }
                    let stamp = universe.insert_pattern(&pattern, row as u32, column as u32, 0);
                    assert(stamp.is_ok());
                    column += spacing as u64;
                }
                proof {
                    lemma_tiling_row_end(universe@, spacing as int, row as int, column as int);
                    lemma_next_anchor(row as int, spacing as int);
                }
                row += spacing as u64;
            }
            proof {
                lemma_tiling_end(universe@, spacing as int, row as int);
            }
        }
        Ok(universe)
    }

    /// The number of columns.
    pub fn width(&self) -> (width: u32)
        requires
            self.wf(),
        ensures
            width == self@.width,
    {
        self.width as u32
    }

    /// The number of rows.
    pub fn height(&self) -> (height: u32)
        requires
            self.wf(),
        ensures
            height == self@.height,
    {
        self.height as u32
    }

    /// The current cells as a packed bit set, one bit per cell in row-major
    /// order.
    pub fn get_cells(&self) -> (cells: &FixedBitSet)
        requires
            self.wf(),
        ensures
            bits(*cells) == self@.cells,
    {
        &self.buffers[self.curr_index]
    }

    /// Advances the universe by one generation. Each active cell is evaluated
    /// against the current buffer and written to the other one, each other
    /// cell is copied, and every cell that changed is marked active for the
    /// next tick together with its neighbours; then the buffers swap roles.
    pub fn tick(&mut self)
        requires
            old(self).wf(),
        ensures
            final(self).wf(),
            final(self)@ == old(self)@.tick(),
            old(self)@.covered() ==> final(self)@.covered() && final(self)@.cells == life_step(
                old(self)@.cells,
                old(self)@.width as int,
                old(self)@.height as int,
            ),
    {
        let curr_index = self.curr_index;
        let next_index = 1 - self.curr_index;
        let (width, height) = (self.width, self.height);
        let len = self.buffers[curr_index].len();
        let ghost g = self@;
        self.active_cell_buffers[next_index].clear();
        let mut idx: usize = 0;
        while idx < len
            invariant
                idx <= len,
                len == width * height,
                g.wf(),
                g.width == width,
                g.height == height,
                self.width == width,
                self.height == height,
                self.curr_index == curr_index,
                curr_index < 2,
                next_index == 1 - curr_index,
                self.inv(),
                bits(self.buffers[curr_index as int]) == g.cells,
                bits(self.active_cell_buffers[curr_index as int]) == g.active,
                forall|i: int|
                    0 <= i < idx ==> #[trigger] bits(self.buffers[next_index as int])[i]
                        == g.ticked_cells()[i],
                forall|i: int|
                    0 <= i < len ==> #[trigger] bits(self.active_cell_buffers[next_index as int])[i]
                        == g.woken(i, idx as int),
            decreases len - idx,
        {
            let active = self.active_cell_buffers[curr_index].contains(idx);
            let cell = self.buffers[curr_index].contains(idx);
            let ghost marks = bits(self.active_cell_buffers[next_index as int]);
            if !active {
                self.buffers[next_index].set(idx, cell);
            } else {
                let neighbours = Self::get_neighbour_array(idx, width, height);
                let live_neighbours = Self::count_alive(&self.buffers[curr_index], &neighbours);
                proof {
                    lemma_neighbour_counts_agree(
                        g.cells,
                        width as int,
                        height as int,
                        idx as int,
                    );
                }
                let (live, changed) = if cell && live_neighbours < 2 {
                    (false, true)
                } else if cell && live_neighbours > 3 {
                    (false, true)
                } else if !cell && live_neighbours == 3 {
                    (true, true)
                } else {
                    (cell, false)
                };
                assert(live == next_state(g.cells, width as int, height as int, idx as int));
                assert(changed == g.changes(idx as int));
                self.buffers[next_index].set(idx, live);
                if changed {
                    Self::seed(&mut self.active_cell_buffers[next_index], idx, width, height);
                }
            }
            proof {
                assert forall|i: int| 0 <= i < len implies #[trigger] bits(
                    self.active_cell_buffers[next_index as int],
                )[i] == g.woken(i, idx + 1) by {
                    lemma_woken_step(g, i, idx as int);
                    assert(marks[i] == g.woken(i, idx as int));
                }
            }
            idx += 1;
        }
        self.curr_index = next_index;
        proof {
            assert(self@.cells =~= g.ticked_cells());
            assert(self@.active =~= g.ticked_active());
            if g.covered() {
                lemma_tick_is_generation(g);
            }
        }
    }

    /// Advances the universe by one generation without regard to the active
    /// marks: every cell is marked active and then evaluated, so the cells
    /// after the call are exactly the next generation.
    pub fn tick_all(&mut self)
        requires
            old(self).wf(),
        ensures
            final(self).wf(),
            final(self)@ == Grid::filled(
                old(self)@.width,
                old(self)@.height,
                old(self)@.cells,
            ).tick(),
            final(self)@.cells == life_step(
                old(self)@.cells,
                old(self)@.width as int,
                old(self)@.height as int,
            ),
            final(self)@.covered(),
    {
        let curr_index = self.curr_index;
        let len = self.buffers[curr_index].len();
        let ghost g = self@;
        let mut idx: usize = 0;
        while idx < len
            invariant
                idx <= len,
                len == g.size(),
                g.wf(),
                self.wf(),
                self.curr_index == curr_index,
                curr_index < 2,
                self@.width == g.width,
                self@.height == g.height,
                self@.cells == g.cells,
                forall|i: int| 0 <= i < idx ==> #[trigger] self@.active[i],
            decreases len - idx,
        {
            self.active_cell_buffers[curr_index].insert(idx);
            idx += 1;
        }
        proof {
            let all = Grid::filled(g.width, g.height, g.cells);
            assert(self@.active =~= all.active);
            lemma_all_active_is_covered(all);
            lemma_tick_is_generation(all);
        }
        self.tick();
    }

    /// The linear index of the cell at (`row`, `column`) of this universe, or
    /// `OutOfBounds` when the universe has no such cell.
    pub fn checked_index(&self, row: u32, column: u32) -> (result: Result<usize, GridError>)
        requires
            self.wf(),
        ensures
            match result {
                Ok(index) => row < self@.height && column < self@.width && index == cell_index(
                    self@.width as int,
                    row as int,
                    column as int,
                ) && index < self@.size(),
                Err(e) => e == GridError::OutOfBounds && !(row < self@.height && column
                    < self@.width),
            },
    {
        if row as usize >= self.height || column as usize >= self.width {
            return Err(GridError::OutOfBounds);
        }
        proof {
            lemma_index_of_coords(
                self.width as int,
                self.height as int,
                row as int,
                column as int,
            );
        }
        Ok(Self::get_index(self.width, row as usize, column as usize))
    }

    /// Inverts the cell at (`row`, `column`) and leaves the active marks as
    /// they are. Fails with `OutOfBounds`, changing nothing, when the cell is
    /// not in the grid.
    pub fn toggle_cell_not_active(&mut self, row: u32, column: u32) -> (result: Result<
        (),
        GridError,
    >)
        requires
            old(self).wf(),
        ensures
            final(self).wf(),
            match result {
                Ok(()) => row < old(self)@.height && column < old(self)@.width && final(self)@ == (
                Grid {
                    cells: toggled(
                        old(self)@.cells,
                        cell_index(old(self)@.width as int, row as int, column as int),
                    ),
                    ..old(self)@
                }),
                Err(e) => e == GridError::OutOfBounds && !(row < old(self)@.height && column < old(
                    self,
                )@.width) && final(self)@ == old(self)@,
            },
    {
        let idx = match self.checked_index(row, column) {
            Ok(idx) => idx,
            Err(e) => {
                return Err(e);
            },
        };
        let curr_index = self.curr_index;
        self.buffers[curr_index].toggle(idx);
        Ok(())
    }

    /// Inverts the cell at (`row`, `column`) and marks it active together with
    /// its eight neighbours. Fails with `OutOfBounds`, changing nothing, when
    /// the cell is not in the grid.
    pub fn toggle_cell(&mut self, row: u32, column: u32) -> (result: Result<(), GridError>)
        requires
            old(self).wf(),
        ensures
            final(self).wf(),
            match result {
                Ok(()) => row < old(self)@.height && column < old(self)@.width && final(self)@
                    == old(self)@.toggle(
                    cell_index(old(self)@.width as int, row as int, column as int),
                ),
                Err(e) => e == GridError::OutOfBounds && !(row < old(self)@.height && column < old(
                    self,
                )@.width) && final(self)@ == old(self)@,
            },
            old(self)@.covered() ==> final(self)@.covered(),
    {
        let idx = match self.checked_index(row, column) {
            Ok(idx) => idx,
            Err(e) => {
                return Err(e);
            },
        };
        proof {
            if self@.covered() {
                lemma_toggle_keeps_covered(self@, idx as int);
            }
        }
        let curr_index = self.curr_index;
        self.buffers[curr_index].toggle(idx);
        Self::seed(&mut self.active_cell_buffers[curr_index], idx, self.width, self.height);
        Ok(())
    }

    /// Sets cell `index` to `state` and marks it active together with its
    /// eight neighbours.
    fn put(&mut self, index: usize, state: bool)
        requires
            old(self).wf(),
            index < old(self)@.size(),
        ensures
            final(self).wf(),
            final(self)@ == old(self)@.put(index as int, state),
    {
        let curr_index = self.curr_index;
        self.buffers[curr_index].set(index, state);
        Self::seed(&mut self.active_cell_buffers[curr_index], index, self.width, self.height);
    }

    /// Makes each cell named in `cells` as (row, column) alive, and marks it
    /// active together with its neighbours; the other cells keep their state.
    /// Fails with `OutOfBounds`, changing nothing, when a pair names no cell
    /// of the grid.
    pub fn set_cells(&mut self, cells: &[(usize, usize)]) -> (result: Result<(), GridError>)
        requires
            old(self).wf(),
        ensures
            final(self).wf(),
            match result {
                Ok(()) => all_inside(cells@, old(self)@.width as int, old(self)@.height as int)
                    && final(self)@ == old(self)@.with_alive(cells@, cells@.len() as int),
                Err(e) => e == GridError::OutOfBounds && !all_inside(
                    cells@,
                    old(self)@.width as int,
                    old(self)@.height as int,
                ) && final(self)@ == old(self)@,
            },
            old(self)@.covered() ==> final(self)@.covered(),
    {
        let (width, height) = (self.width, self.height);
        let mut k: usize = 0;
        while k < cells.len()
            invariant
                k <= cells.len(),
                *self == *old(self),
                self.wf(),
                width == self.width,
                height == self.height,
                forall|m: int|
                    0 <= m < k ==> (#[trigger] cells@[m]).0 < height && cells@[m].1 < width,
            decreases cells.len() - k,
        {
            let (row, col) = cells[k];
            if row >= height || col >= width {
                assert(!(cells@[k as int].0 < height && cells@[k as int].1 < width));
                return Err(GridError::OutOfBounds);
            }
            k += 1;
        }
        let ghost g = self@;
        proof {
            assert(self@.cells =~= g.with_alive(cells@, 0).cells);
            assert(self@.active =~= g.with_alive(cells@, 0).active);
            if g.covered() {
                lemma_with_alive_keeps_covered(g, cells@, cells@.len() as int);
            }
        }
        let mut k: usize = 0;
        while k < cells.len()
            invariant
                k <= cells.len(),
                all_inside(cells@, width as int, height as int),
                self.wf(),
                g.wf(),
                g.width == width,
                g.height == height,
                self@ == g.with_alive(cells@, k as int),
            decreases cells.len() - k,
        {
            let (row, col) = cells[k];
            proof {
                lemma_index_of_coords(width as int, height as int, row as int, col as int);
            }
            let idx = Self::get_index(width, row, col);
            let ghost before = self@;
            self.put(idx, true);
            proof {
                let after = g.with_alive(cells@, k + 1);
                assert forall|i: int| 0 <= i < g.cells.len() implies self@.cells[i]
                    == after.cells[i] && self@.active[i] == after.active[i] by {
                    lemma_listed_step(cells@, k as int, width as int, height as int, i);
                }
                assert(self@.cells =~= after.cells);
                assert(self@.active =~= after.active);
            }
            k += 1;
        }
        Ok(())
    }

    /// Resizes the universe to `width` columns, which clears it: every cell
    /// is dead afterwards and none is active. Fails as `new` does, changing
    /// nothing.
    pub fn set_width(&mut self, width: u32) -> (result: Result<(), GridError>)
        requires
            old(self).wf(),
        ensures
            final(self).wf(),
            match result {
                Ok(()) => Grid::size_of(width as nat, old(self)@.height).is_ok() && final(self)@
                    == Grid::blank(width as nat, old(self)@.height) && final(self)@.covered(),
                Err(e) => Grid::size_of(width as nat, old(self)@.height) == Err::<usize, GridError>(
                    e,
                ) && final(self)@ == old(self)@,
            },
    {
        match Self::checked_size(width, self.height as u32) {
            Ok(size) => {
                *self = Self::blank(width as usize, self.height, size);
                Ok(())
            },
            Err(e) => Err(e),
        }
    }

    /// Resizes the universe to `height` rows, which clears it: every cell is
    /// dead afterwards and none is active. Fails as `new` does, changing
    /// nothing.
    pub fn set_height(&mut self, height: u32) -> (result: Result<(), GridError>)
        requires
            old(self).wf(),
        ensures
            final(self).wf(),
            match result {
                Ok(()) => Grid::size_of(old(self)@.width, height as nat).is_ok() && final(self)@
                    == Grid::blank(old(self)@.width, height as nat) && final(self)@.covered(),
                Err(e) => Grid::size_of(old(self)@.width, height as nat) == Err::<usize, GridError>(
                    e,
                ) && final(self)@ == old(self)@,
            },
    {
        match Self::checked_size(self.width as u32, height) {
            Ok(size) => {
                *self = Self::blank(self.width, height as usize, size);
                Ok(())
            },
            Err(e) => Err(e),
        }
    }

    /// The width of this grid once turned by `angle` degrees: the height for
    /// a quarter turn either way, else the width.
    pub fn angle_width(&self, angle: u32) -> (width: usize)
        ensures
            width == turned_width(self@.width as int, self@.height as int, angle),
    {
        if angle == 90 || angle == 270 {
            self.height
        } else {
            self.width
        }
    }

    /// The height of this grid once turned by `angle` degrees: the width for
    /// a quarter turn either way, else the height.
    pub fn angle_height(&self, angle: u32) -> (height: usize)
        ensures
            height == turned_height(self@.width as int, self@.height as int, angle),
    {
        if angle == 90 || angle == 270 {
            self.width
        } else {
            self.height
        }
    }

    /// The index of the cell of this grid that lands at (`row`, `col`) when
    /// the grid is turned by `angle` degrees.
    pub fn get_angle_index(&self, row: usize, col: usize, angle: u32) -> (index: usize)
        requires
            self.wf(),
            valid_angle(angle),
            row < turned_height(self@.width as int, self@.height as int, angle),
            col < turned_width(self@.width as int, self@.height as int, angle),
        ensures
            index == turned_index(
                self@.width as int,
                self@.height as int,
                row as int,
                col as int,
                angle,
            ),
            index < self@.size(),
    {
        angle_index(self.width, self.height, row, col, angle)
    }

    /// Copies `pattern`, turned by `angle` degrees, into the universe with
    /// its top left corner at (`row`, `column`). What falls outside the grid
    /// is cut off. Every destination cell takes the state of its source cell
    /// and is marked active together with its neighbours.
    ///
    /// Fails, changing nothing, with `InvalidArgument` when `angle` is not
    /// 0, 90, 180 or 270, and else with `OutOfBounds` when the corner is not
    /// a cell of the grid.
    pub fn insert_pattern(&mut self, pattern: &Pattern, row: u32, column: u32, angle: u32) -> (result:
        Result<(), GridError>)
        requires
            old(self).wf(),
            pattern.wf(),
        ensures
            final(self).wf(),
            match result {
                Ok(()) => valid_angle(angle) && row < old(self)@.height && column < old(
                    self,
                )@.width && final(self)@ == stamped(
                    old(self)@,
                    pattern@,
                    row as int,
                    column as int,
                    angle,
                ),
                Err(e) => final(self)@ == old(self)@ && if !valid_angle(angle) {
                    e == GridError::InvalidArgument
                } else {
                    e == GridError::OutOfBounds && !(row < old(self)@.height && column < old(
                        self,
                    )@.width)
                },
            },
            old(self)@.covered() ==> final(self)@.covered(),
    {
        if !(angle == 0 || angle == 90 || angle == 180 || angle == 270) {
            return Err(GridError::InvalidArgument);
        }
        let (row, column) = (row as usize, column as usize);
        let (width, height) = (self.width, self.height);
        if row >= height || column >= width {
            return Err(GridError::OutOfBounds);
        }
        let pattern_height = pattern.angle_height(angle);
        let pattern_width = pattern.angle_width(angle);
        let max_row = if pattern_height < height - row {
            pattern_height
        } else {
            height - row
        };
        let max_col = if pattern_width < width - column {
            pattern_width
        } else {
            width - column
        };
        let ghost g = self@;
        let ghost p = pattern@;
        let ghost at = Placement::of(g, p, row as int, column as int, angle);
        proof {
            lemma_stamp_start(g, p, at);
            if g.covered() {
                lemma_stamped_keeps_covered(g, p, row as int, column as int, angle);
            }
        }
        let mut r: usize = 0;
        while r < max_row
            invariant
                r <= max_row,
                self.wf(),
                pattern.wf(),
                valid_angle(angle),
                g.wf(),
                p == pattern@,
                g.width == width,
                g.height == height,
                at == Placement::of(g, p, row as int, column as int, angle),
                at.rows == max_row,
                at.cols == max_col,
                at.fits(width as int, height as int),
                max_row <= turned_height(p.width as int, p.height as int, angle),
                max_col <= turned_width(p.width as int, p.height as int, angle),
                self@ == stamped_upto(g, p, at, r as int, 0),
            decreases max_row - r,
        {
            let u_row = r + row;
            let mut c: usize = 0;
            while c < max_col
                invariant
                    c <= max_col,
                    r < max_row,
                    u_row == r + row,
                    self.wf(),
                    pattern.wf(),
                    valid_angle(angle),
                    g.wf(),
                    p == pattern@,
                    g.width == width,
                    g.height == height,
                    at == Placement::of(g, p, row as int, column as int, angle),
                    at.rows == max_row,
                    at.cols == max_col,
                    at.fits(width as int, height as int),
                    max_row <= turned_height(p.width as int, p.height as int, angle),
                    max_col <= turned_width(p.width as int, p.height as int, angle),
                    self@ == stamped_upto(g, p, at, r as int, c as int),
                decreases max_col - c,
            {
                let u_col = c + column;
                proof {
                    lemma_index_of_coords(
                        width as int,
                        height as int,
                        u_row as int,
                        u_col as int,
                    );
                    lemma_stamp_step(g, p, at, r as int, c as int);
                }
                let u_idx = Self::get_index(width, u_row, u_col);
                let p_idx = pattern.get_angle_index(r, c, angle);
                self.put(u_idx, pattern.get(p_idx));
                c += 1;
            }
            proof {
                lemma_stamp_row_end(g, p, at, r as int);
            }
            r += 1;
        }
        Ok(())
    }

    /// The current active marks as a packed bit set, one bit per cell in
    /// row-major order: the cells that the next tick evaluates.
    pub fn get_active_cells(&self) -> (active: &FixedBitSet)
        requires
            self.wf(),
        ensures
            bits(*active) == self@.active,
    {
        &self.active_cell_buffers[self.curr_index]
    }

    /// The eight toroidal neighbours of cell `index` as a lazy sequence, in
    /// the order NW, N, NE, W, E, SW, S, SE.
    pub fn get_neighbours(index: usize, width: usize, height: usize) -> (iter: NeighbourIter)
        requires
            valid_dims(width as int, height as int),
            index < width * height,
        ensures
            iter.wf(),
            iter.state == 0,
            iter.yields() == neighbour_indices(index as int, width as int, height as int),
    {
        let row = index / width;
        let col = index % width;
        proof {
            lemma_coords(index as int, width as int, height as int);
        }
        let north = if row == 0 { height - 1 } else { row - 1 };
        let west = if col == 0 { width - 1 } else { col - 1 };
        let east = if col == width - 1 { 0 } else { col + 1 };
        let south = if row == height - 1 { 0 } else { row + 1 };
        let iter = NeighbourIter { width, row, col, north, south, east, west, state: 0 };
        proof {
            lemma_index_of_coords(width as int, height as int, north as int, west as int);
            lemma_index_of_coords(width as int, height as int, north as int, col as int);
            lemma_index_of_coords(width as int, height as int, north as int, east as int);
            lemma_index_of_coords(width as int, height as int, row as int, west as int);
            lemma_index_of_coords(width as int, height as int, row as int, east as int);
            lemma_index_of_coords(width as int, height as int, south as int, west as int);
            lemma_index_of_coords(width as int, height as int, south as int, col as int);
            lemma_index_of_coords(width as int, height as int, south as int, east as int);
            assert(iter.yields() =~= neighbour_indices(
                index as int,
                width as int,
                height as int,
            ));
        }
        iter
    }

    /// The grid as text: one line per row, each a filled square for every live
    /// cell and a hollow square for every dead one, ended by a line feed.
    pub fn render(&self) -> (text: String)
        requires
            self.wf(),
        ensures
            text@ == rows_text(self@.cells, self@.width as int, self@.height as int),
    {
        let (width, height) = (self.width, self.height);
        let cells = &self.buffers[self.curr_index];
        let mut text = String::new();
        let mut row: usize = 0;
        while row < height
            invariant
                row <= height,
                valid_dims(width as int, height as int),
                bits(*cells).len() == width * height,
                text@ == rows_text(bits(*cells), width as int, row as int),
            decreases height - row,
        {
            let ghost done = text@;
            let mut col: usize = 0;
            while col < width
                invariant
                    col <= width,
                    row < height,
                    valid_dims(width as int, height as int),
                    bits(*cells).len() == width * height,
                    text@ == done + row_glyphs(bits(*cells), width as int, row as int, col as int),
                decreases width - col,
            {
                proof {
                    lemma_index_of_coords(width as int, height as int, row as int, col as int);
                }
                let idx = Self::get_index(width, row, col);
                let symbol = if cells.contains(idx) { '\u{25FC}' } else { '\u{25FB}' };
                text.push(symbol);
                assert(text@ =~= done + row_glyphs(
                    bits(*cells),
                    width as int,
                    row as int,
                    col + 1,
                ));
                col += 1;
            }
            text.push('\n');
            assert(text@ =~= rows_text(bits(*cells), width as int, row + 1));
            row += 1;
        }
        text
    }

    /// The number of live cells among the eight neighbours of cell `index`,
    /// each neighbour looked up on its own; it is the number that counting
    /// along the array of neighbour indices gives.
    pub fn index_neighbour_count(&self, index: usize) -> (count: u8)
        requires
            self.wf(),
            index < self@.size(),
        ensures
            count == live_neighbours(
                self@.cells,
                self@.width as int,
                self@.height as int,
                index as int,
            ),
            count == alive_among(
                self@.cells,
                neighbour_indices(index as int, self@.width as int, self@.height as int),
                8,
            ),
    {
        let (width, height) = (self.width, self.height);
        let cells = &self.buffers[self.curr_index];
        proof {
            lemma_neighbour_counts_agree(
                self@.cells,
                width as int,
                height as int,
                index as int,
            );
        }
        let row = index / width;
        let col = index % width;
        proof {
            lemma_coords(index as int, width as int, height as int);
        }
        assert(row < height && col < width);
        let north = if row == 0 { height - 1 } else { row - 1 };
        let west = if col == 0 { width - 1 } else { col - 1 };
        let east = if col == width - 1 { 0 } else { col + 1 };
        let south = if row == height - 1 { 0 } else { row + 1 };
        assert(north < height && south < height && west < width && east < width);

        let c0 = Self::alive_at(cells, width, height, north, west);
        let c1 = Self::alive_at(cells, width, height, north, col);
        let c2 = Self::alive_at(cells, width, height, north, east);
        let c3 = Self::alive_at(cells, width, height, row, west);
        let c4 = Self::alive_at(cells, width, height, row, east);
        let c5 = Self::alive_at(cells, width, height, south, west);
        let c6 = Self::alive_at(cells, width, height, south, col);
        let c7 = Self::alive_at(cells, width, height, south, east);
        assert(c0 <= 1 && c1 <= 1 && c2 <= 1 && c3 <= 1 && c4 <= 1 && c5 <= 1 && c6 <= 1 && c7 <= 1);
        c0 + c1 + c2 + c3 + c4 + c5 + c6 + c7
    }

    /// The number of live cells among the eight neighbours of cell `index`,
    /// or `OutOfBounds` when the universe has no such cell.
    pub fn checked_neighbour_count(&self, index: usize) -> (result: Result<u8, GridError>)
        requires
            self.wf(),
        ensures
            match result {
                Ok(count) => index < self@.size() && count == live_neighbours(
                    self@.cells,
                    self@.width as int,
                    self@.height as int,
                    index as int,
                ),
                Err(e) => e == GridError::OutOfBounds && index >= self@.size(),
            },
    {
        if index >= self.buffers[self.curr_index].len() {
            return Err(GridError::OutOfBounds);
        }
        Ok(self.index_neighbour_count(index))
    }

    /// One if the cell at (`row`, `column`) of `cells` is alive, else zero.
    fn alive_at(cells: &FixedBitSet, width: usize, height: usize, row: usize, column: usize) -> (count:
        u8)
        requires
            valid_dims(width as int, height as int),
            row < height,
            column < width,
            bits(*cells).len() == width * height,
        ensures
            count == bit(bits(*cells)[cell_index(width as int, row as int, column as int)]),
    {
        proof {
            lemma_index_of_coords(width as int, height as int, row as int, column as int);
        }
        let index = Self::get_index(width, row, column);
        Self::as_count(cells.contains(index))
    }
}

} // verus!
