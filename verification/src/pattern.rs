//! Patterns: small fixed grids that serve as stencils, the catalogue of known
//! shapes, and the index arithmetic of turning a stencil by a quarter turn.

use crate::bitset::bits;
use crate::rules::{all_inside, lemma_listed_step, listed};
use crate::topology::{lemma_index_of_coords, valid_dims};
use fixedbitset::FixedBitSet;
use vstd::prelude::*;

verus! {

/// Whether `angle` is one of the four supported rotations, in degrees.
pub open spec fn valid_angle(angle: u32) -> bool {
    angle == 0 || angle == 90 || angle == 180 || angle == 270
}

/// The width of a `width` by `height` stencil once turned by `angle`.
pub open spec fn turned_width(width: int, height: int, angle: u32) -> int {
    if angle == 90 || angle == 270 {
        height
    } else {
        width
    }
}

/// The height of a `width` by `height` stencil once turned by `angle`.
pub open spec fn turned_height(width: int, height: int, angle: u32) -> int {
    if angle == 90 || angle == 270 {
        width
    } else {
        height
    }
}

/// The index, in a `width` by `height` stencil, of the cell that lands at
/// (`row`, `col`) when the stencil is turned by `angle`.
pub open spec fn turned_index(width: int, height: int, row: int, col: int, angle: u32) -> int {
    if angle == 90 {
        (height - col - 1) * width + row
    } else if angle == 180 {
        width * height - (row * width + col + 1)
    } else if angle == 270 {
        col * width + (width - row - 1)
    } else {
        row * width + col
    }
}

/// The turned index of a cell of the turned stencil is a cell of the stencil.
pub proof fn lemma_turned_index_in_range(width: int, height: int, row: int, col: int, angle: u32)
    requires
        1 <= width,
        1 <= height,
        0 <= row < turned_height(width, height, angle),
        0 <= col < turned_width(width, height, angle),
    ensures
        0 <= turned_index(width, height, row, col, angle) < width * height,
{
    if angle == 90 {
        lemma_index_of_coords(width, height, height - col - 1, row);
    } else if angle == 180 {
        lemma_index_of_coords(width, height, row, col);
    } else if angle == 270 {
        lemma_index_of_coords(width, height, col, width - row - 1);
    } else {
        lemma_index_of_coords(width, height, row, col);
    }
}

/// The index, in a `width` by `height` stencil, of the cell that lands at
/// (`row`, `col`) when the stencil is turned by `angle` degrees.
pub fn angle_index(width: usize, height: usize, row: usize, col: usize, angle: u32) -> (index:
    usize)
    requires
        valid_dims(width as int, height as int),
        valid_angle(angle),
        row < turned_height(width as int, height as int, angle),
        col < turned_width(width as int, height as int, angle),
    ensures
        index == turned_index(width as int, height as int, row as int, col as int, angle),
        index < width * height,
{
    proof {
        lemma_turned_index_in_range(width as int, height as int, row as int, col as int, angle);
        if angle == 90 {
            lemma_index_of_coords(width as int, height as int, height - col - 1, row as int);
        } else if angle == 270 {
            lemma_index_of_coords(width as int, height as int, col as int, width - row - 1);
        } else {
            lemma_index_of_coords(width as int, height as int, row as int, col as int);
        }
    }
    if angle == 90 {
        (height - col - 1) * width + row
    } else if angle == 180 {
        width * height - (row * width + col + 1)
    } else if angle == 270 {
        col * width + (width - row - 1)
    } else {
        row * width + col
    }
}

/// The model of a pattern: its dimensions and the state of each cell in
/// row-major order.
pub struct Stencil {
    pub width: nat,
    pub height: nat,
    pub cells: Seq<bool>,
}

impl Stencil {
    /// The dimensions are valid and there is one state per cell.
    pub open spec fn wf(self) -> bool {
        valid_dims(self.width as int, self.height as int) && self.cells.len() == self.width
            * self.height
    }

    /// The stencil of the given dimensions whose live cells are exactly those
    /// named by `coords` as (row, column).
    pub open spec fn of(width: nat, height: nat, coords: Seq<(usize, usize)>) -> Stencil {
        Stencil {
            width,
            height,
            cells: Seq::new(
                width * height,
                |i: int| listed(coords, coords.len() as int, width as int, i),
            ),
        }
    }
}

/// A fixed shape to be copied into a universe. It is never ticked and tracks
/// no active cells.
pub struct Pattern {
    width: usize,
    height: usize,
    cells: FixedBitSet,
}

impl View for Pattern {
    type V = Stencil;

    closed spec fn view(&self) -> Stencil {
        Stencil { width: self.width as nat, height: self.height as nat, cells: bits(self.cells) }
    }
}

impl Pattern {
    /// The pattern models a well-formed stencil.
    pub open spec fn wf(&self) -> bool {
        self@.wf()
    }

    /// A pattern of the given dimensions with every cell dead.
    fn new_plain(width: usize, height: usize) -> (pattern: Pattern)
        requires
            valid_dims(width as int, height as int),
        ensures
            pattern.wf(),
            pattern@ == Stencil::of(width as nat, height as nat, Seq::empty()),
    {
        let size = width * height;
        let pattern = Pattern { width, height, cells: FixedBitSet::with_capacity(size) };
        assert(pattern@.cells =~= Stencil::of(width as nat, height as nat, Seq::empty()).cells);
        pattern
    }

    /// A pattern of the given dimensions whose live cells are those named in
    /// `cells` as (row, column).
    fn with_cells(width: usize, height: usize, cells: &[(usize, usize)]) -> (pattern: Pattern)
        requires
            valid_dims(width as int, height as int),
            all_inside(cells@, width as int, height as int),
        ensures
            pattern.wf(),
            pattern@ == Stencil::of(width as nat, height as nat, cells@),
    {
        let mut pattern = Self::new_plain(width, height);
        let mut k: usize = 0;
        while k < cells.len()
            invariant
                k <= cells.len(),
                valid_dims(width as int, height as int),
                all_inside(cells@, width as int, height as int),
                pattern.width == width,
                pattern.height == height,
                bits(pattern.cells).len() == width * height,
                forall|i: int|
                    0 <= i < width * height ==> #[trigger] bits(pattern.cells)[i] == listed(
                        cells@,
                        k as int,
                        width as int,
                        i,
                    ),
            decreases cells.len() - k,
        {
            let (row, col) = cells[k];
            proof {
                lemma_index_of_coords(width as int, height as int, row as int, col as int);
            }
            let ghost before = bits(pattern.cells);
            pattern.cells.set(row * width + col, true);
            proof {
                assert forall|i: int| 0 <= i < width * height implies #[trigger] bits(
                    pattern.cells,
                )[i] == listed(cells@, k + 1, width as int, i) by {
                    lemma_listed_step(cells@, k as int, width as int, height as int, i);
                    assert(before[i] == listed(cells@, k as int, width as int, i));
                }
            }
            k += 1;
        }
        assert(pattern@.cells =~= Stencil::of(width as nat, height as nat, cells@).cells);
        pattern
    }

    /// The number of columns.
    pub fn width(&self) -> (width: usize)
        ensures
            width == self@.width,
    {
        self.width
    }

    /// The number of rows.
    pub fn height(&self) -> (height: usize)
        ensures
            height == self@.height,
    {
        self.height
    }

    /// The state of cell `index`.
    pub fn get(&self, index: usize) -> (alive: bool)
        requires
            index < self@.cells.len(),
        ensures
            alive == self@.cells[index as int],
    {
        self.cells.contains(index)
    }

    /// The width of the pattern once turned by `angle` degrees: the height
    /// for a quarter turn either way, else the width.
    pub fn angle_width(&self, angle: u32) -> (width: usize)
        ensures
            width == turned_width(self@.width as int, self@.height as int, angle),
    {
        if angle == 90 || angle == 270 {
            self.height
        } else {
            self.width
        }
    }

    /// The height of the pattern once turned by `angle` degrees: the width
    /// for a quarter turn either way, else the height.
    pub fn angle_height(&self, angle: u32) -> (height: usize)
        ensures
            height == turned_height(self@.width as int, self@.height as int, angle),
    {
        if angle == 90 || angle == 270 {
            self.width
        } else {
            self.height
        }
    }

    /// The index of the cell of this pattern that lands at (`row`, `col`)
    /// when the pattern is turned by `angle` degrees.
    pub fn get_angle_index(&self, row: usize, col: usize, angle: u32) -> (index: usize)
        requires
            self.wf(),
            valid_angle(angle),
            row < turned_height(self@.width as int, self@.height as int, angle),
            col < turned_width(self@.width as int, self@.height as int, angle),
        ensures
            index == turned_index(
                self@.width as int,
                self@.height as int,
                row as int,
                col as int,
                angle,
            ),
            index < self@.cells.len(),
    {
        angle_index(self.width, self.height, row, col, angle)
    }

    /// The blinker, an oscillator of period two, on a 5 by 5 stencil.
    pub fn blinker() -> (pattern: Pattern)
        ensures
            pattern.wf(),
            pattern@ == Stencil::of(
                5,
                5,
                seq![
                    (2, 1), (2, 2), (2, 3),
                ],
            ),
    {
        let cells: [(usize, usize); 3] = [
            (2, 1), (2, 2), (2, 3),
        ];
        assert(cells@ =~= seq![
            (2, 1), (2, 2), (2, 3),
        ]);
        Self::with_cells(5, 5, &cells)
    }

    /// The toad, an oscillator of period two, on a 6 by 6 stencil.
    pub fn toad() -> (pattern: Pattern)
        ensures
            pattern.wf(),
            pattern@ == Stencil::of(
                6,
                6,
                seq![
                    (2, 2), (2, 3), (2, 4), (3, 1), (3, 2), (3, 3),
                ],
            ),
    {
        let cells: [(usize, usize); 6] = [
            (2, 2), (2, 3), (2, 4), (3, 1), (3, 2), (3, 3),
        ];
        assert(cells@ =~= seq![
            (2, 2), (2, 3), (2, 4), (3, 1), (3, 2), (3, 3),
        ]);
        Self::with_cells(6, 6, &cells)
    }

    /// The beacon, an oscillator of period two, on a 6 by 6 stencil.
    pub fn beacon() -> (pattern: Pattern)
        ensures
            pattern.wf(),
            pattern@ == Stencil::of(
                6,
                6,
                seq![
                    (1, 1), (1, 2), (2, 1), (2, 2), (3, 3), (3, 4), (4, 3), (4, 4),
                ],
            ),
    {
        let cells: [(usize, usize); 8] = [
            (1, 1), (1, 2), (2, 1), (2, 2), (3, 3), (3, 4), (4, 3), (4, 4),
        ];
        assert(cells@ =~= seq![
            (1, 1), (1, 2), (2, 1), (2, 2), (3, 3), (3, 4), (4, 3), (4, 4),
        ]);
        Self::with_cells(6, 6, &cells)
    }

    /// The pulsar, an oscillator of period three, on a 17 by 17 stencil.
    pub fn pulsar() -> (pattern: Pattern)
        ensures
            pattern.wf(),
            pattern@ == Stencil::of(
                17,
                17,
                seq![
                    (2, 4), (2, 5), (2, 6), (2, 10), (2, 11), (2, 12), (4, 2), (4, 7), (4, 9),
                    (4, 14), (5, 2), (5, 7), (5, 9), (5, 14), (6, 2), (6, 7), (6, 9), (6, 14),
                    (7, 4), (7, 5), (7, 6), (7, 10), (7, 11), (7, 12), (9, 4), (9, 5), (9, 6),
                    (9, 10), (9, 11), (9, 12), (10, 2), (10, 7), (10, 9), (10, 14), (11, 2),
                    (11, 7), (11, 9), (11, 14), (12, 2), (12, 7), (12, 9), (12, 14), (14, 4),
                    (14, 5), (14, 6), (14, 10), (14, 11), (14, 12),
                ],
            ),
    {
        let cells: [(usize, usize); 48] = [
            (2, 4), (2, 5), (2, 6), (2, 10), (2, 11), (2, 12), (4, 2), (4, 7), (4, 9), (4, 14),
            (5, 2), (5, 7), (5, 9), (5, 14), (6, 2), (6, 7), (6, 9), (6, 14), (7, 4), (7, 5),
            (7, 6), (7, 10), (7, 11), (7, 12), (9, 4), (9, 5), (9, 6), (9, 10), (9, 11),
            (9, 12), (10, 2), (10, 7), (10, 9), (10, 14), (11, 2), (11, 7), (11, 9), (11, 14),
            (12, 2), (12, 7), (12, 9), (12, 14), (14, 4), (14, 5), (14, 6), (14, 10), (14, 11),
            (14, 12),
        ];
        assert(cells@ =~= seq![
            (2, 4), (2, 5), (2, 6), (2, 10), (2, 11), (2, 12), (4, 2), (4, 7), (4, 9), (4, 14),
            (5, 2), (5, 7), (5, 9), (5, 14), (6, 2), (6, 7), (6, 9), (6, 14), (7, 4), (7, 5),
            (7, 6), (7, 10), (7, 11), (7, 12), (9, 4), (9, 5), (9, 6), (9, 10), (9, 11),
            (9, 12), (10, 2), (10, 7), (10, 9), (10, 14), (11, 2), (11, 7), (11, 9), (11, 14),
            (12, 2), (12, 7), (12, 9), (12, 14), (14, 4), (14, 5), (14, 6), (14, 10), (14, 11),
            (14, 12),
        ]);
        Self::with_cells(17, 17, &cells)
    }

    /// The pentadecathlon, an oscillator of period fifteen, on a stencil 11 wide and 18 high.
    pub fn pentadecathlon() -> (pattern: Pattern)
        ensures
            pattern.wf(),
            pattern@ == Stencil::of(
                11,
                18,
                seq![
                    (4, 5), (5, 5), (6, 4), (6, 6), (7, 5), (8, 5), (9, 5), (10, 5), (11, 4),
                    (11, 6), (12, 5), (13, 5),
                ],
            ),
    {
        let cells: [(usize, usize); 12] = [
            (4, 5), (5, 5), (6, 4), (6, 6), (7, 5), (8, 5), (9, 5), (10, 5), (11, 4), (11, 6),
            (12, 5), (13, 5),
        ];
        assert(cells@ =~= seq![
            (4, 5), (5, 5), (6, 4), (6, 6), (7, 5), (8, 5), (9, 5), (10, 5), (11, 4), (11, 6),
            (12, 5), (13, 5),
        ]);
        Self::with_cells(11, 18, &cells)
    }

    /// The glider, the smallest spaceship, on a 5 by 5 stencil.
    pub fn glider() -> (pattern: Pattern)
        ensures
            pattern.wf(),
            pattern@ == Stencil::of(
                5,
                5,
                seq![
                    (1, 2), (2, 3), (3, 1), (3, 2), (3, 3),
                ],
            ),
    {
        let cells: [(usize, usize); 5] = [
            (1, 2), (2, 3), (3, 1), (3, 2), (3, 3),
        ];
        assert(cells@ =~= seq![
            (1, 2), (2, 3), (3, 1), (3, 2), (3, 3),
        ]);
        Self::with_cells(5, 5, &cells)
    }

    /// The lightweight spaceship, on a stencil 7 wide and 6 high.
    pub fn lightweight_spaceship() -> (pattern: Pattern)
        ensures
            pattern.wf(),
            pattern@ == Stencil::of(
                7,
                6,
                seq![
                    (1, 1), (1, 4), (2, 5), (3, 1), (3, 5), (4, 2), (4, 3), (4, 4), (4, 5),
                ],
            ),
    {
        let cells: [(usize, usize); 9] = [
            (1, 1), (1, 4), (2, 5), (3, 1), (3, 5), (4, 2), (4, 3), (4, 4), (4, 5),
        ];
        assert(cells@ =~= seq![
            (1, 1), (1, 4), (2, 5), (3, 1), (3, 5), (4, 2), (4, 3), (4, 4), (4, 5),
        ]);
        Self::with_cells(7, 6, &cells)
    }

    /// The midweight spaceship, on a stencil 8 wide and 7 high.
    pub fn midweight_spaceship() -> (pattern: Pattern)
        ensures
            pattern.wf(),
            pattern@ == Stencil::of(
                8,
                7,
                seq![
                    (1, 3), (2, 1), (2, 5), (3, 6), (4, 1), (4, 6), (5, 2), (5, 3), (5, 4),
                    (5, 5), (5, 6),
                ],
            ),
    {
        let cells: [(usize, usize); 11] = [
            (1, 3), (2, 1), (2, 5), (3, 6), (4, 1), (4, 6), (5, 2), (5, 3), (5, 4), (5, 5),
            (5, 6),
        ];
        assert(cells@ =~= seq![
            (1, 3), (2, 1), (2, 5), (3, 6), (4, 1), (4, 6), (5, 2), (5, 3), (5, 4), (5, 5),
            (5, 6),
        ]);
        Self::with_cells(8, 7, &cells)
    }

    /// The heavyweight spaceship, on a stencil 9 wide and 7 high.
    pub fn heavyweight_spaceship() -> (pattern: Pattern)
        ensures
            pattern.wf(),
            pattern@ == Stencil::of(
                9,
                7,
                seq![
                    (1, 3), (1, 4), (2, 1), (2, 6), (3, 7), (4, 1), (4, 7), (5, 2), (5, 3),
                    (5, 4), (5, 5), (5, 6), (5, 7),
                ],
            ),
    {
        let cells: [(usize, usize); 13] = [
            (1, 3), (1, 4), (2, 1), (2, 6), (3, 7), (4, 1), (4, 7), (5, 2), (5, 3), (5, 4),
            (5, 5), (5, 6), (5, 7),
        ];
        assert(cells@ =~= seq![
            (1, 3), (1, 4), (2, 1), (2, 6), (3, 7), (4, 1), (4, 7), (5, 2), (5, 3), (5, 4),
            (5, 5), (5, 6), (5, 7),
        ]);
        Self::with_cells(9, 7, &cells)
    }

    /// The R-pentomino, a methuselah, on a 5 by 5 stencil.
    pub fn r_pentomino() -> (pattern: Pattern)
        ensures
            pattern.wf(),
            pattern@ == Stencil::of(
                5,
                5,
                seq![
                    (1, 2), (1, 3), (2, 1), (2, 2), (3, 2),
                ],
            ),
    {
        let cells: [(usize, usize); 5] = [
            (1, 2), (1, 3), (2, 1), (2, 2), (3, 2),
        ];
        assert(cells@ =~= seq![
            (1, 2), (1, 3), (2, 1), (2, 2), (3, 2),
        ]);
        Self::with_cells(5, 5, &cells)
    }

    /// Diehard, a methuselah that dies out in the end, on a stencil 10 wide and 5 high.
    pub fn diehard() -> (pattern: Pattern)
        ensures
            pattern.wf(),
            pattern@ == Stencil::of(
                10,
                5,
                seq![
                    (1, 7), (2, 1), (2, 2), (3, 2), (3, 6), (3, 7), (3, 8),
                ],
            ),
    {
        let cells: [(usize, usize); 7] = [
            (1, 7), (2, 1), (2, 2), (3, 2), (3, 6), (3, 7), (3, 8),
        ];
        assert(cells@ =~= seq![
            (1, 7), (2, 1), (2, 2), (3, 2), (3, 6), (3, 7), (3, 8),
        ]);
        Self::with_cells(10, 5, &cells)
    }

    /// The Gosper glider gun, on a stencil 38 wide and 11 high.
    pub fn gosper_glider_gun() -> (pattern: Pattern)
        ensures
            pattern.wf(),
            pattern@ == Stencil::of(
                38,
                11,
                seq![
                    (1, 25), (2, 23), (2, 25), (3, 13), (3, 14), (3, 21), (3, 22), (3, 35),
                    (3, 36), (4, 12), (4, 16), (4, 21), (4, 22), (4, 35), (4, 36), (5, 1),
                    (5, 2), (5, 11), (5, 17), (5, 21), (5, 22), (6, 1), (6, 2), (6, 11),
                    (6, 15), (6, 17), (6, 18), (6, 23), (6, 25), (7, 11), (7, 17), (7, 25),
                    (8, 12), (8, 16), (9, 13), (9, 14),
                ],
            ),
    {
        let cells: [(usize, usize); 36] = [
            (1, 25), (2, 23), (2, 25), (3, 13), (3, 14), (3, 21), (3, 22), (3, 35), (3, 36),
            (4, 12), (4, 16), (4, 21), (4, 22), (4, 35), (4, 36), (5, 1), (5, 2), (5, 11),
            (5, 17), (5, 21), (5, 22), (6, 1), (6, 2), (6, 11), (6, 15), (6, 17), (6, 18),
            (6, 23), (6, 25), (7, 11), (7, 17), (7, 25), (8, 12), (8, 16), (9, 13), (9, 14),
        ];
        assert(cells@ =~= seq![
            (1, 25), (2, 23), (2, 25), (3, 13), (3, 14), (3, 21), (3, 22), (3, 35), (3, 36),
            (4, 12), (4, 16), (4, 21), (4, 22), (4, 35), (4, 36), (5, 1), (5, 2), (5, 11),
            (5, 17), (5, 21), (5, 22), (6, 1), (6, 2), (6, 11), (6, 15), (6, 17), (6, 18),
            (6, 23), (6, 25), (7, 11), (7, 17), (7, 25), (8, 12), (8, 16), (9, 13), (9, 14),
        ]);
        Self::with_cells(38, 11, &cells)
    }

    /// The minimal block-laying engine, on a stencil 10 wide and 8 high.
    pub fn minimal_block_engine() -> (pattern: Pattern)
        ensures
            pattern.wf(),
            pattern@ == Stencil::of(
                10,
                8,
                seq![
                    (1, 7), (2, 5), (2, 7), (2, 8), (3, 5), (3, 7), (4, 5), (5, 3), (6, 1),
                    (6, 3),
                ],
            ),
    {
        let cells: [(usize, usize); 10] = [
            (1, 7), (2, 5), (2, 7), (2, 8), (3, 5), (3, 7), (4, 5), (5, 3), (6, 1), (6, 3),
        ];
        assert(cells@ =~= seq![
            (1, 7), (2, 5), (2, 7), (2, 8), (3, 5), (3, 7), (4, 5), (5, 3), (6, 1), (6, 3),
        ]);
        Self::with_cells(10, 8, &cells)
    }

    /// The small block-laying engine, on a 7 by 7 stencil.
    pub fn small_block_engine() -> (pattern: Pattern)
        ensures
            pattern.wf(),
            pattern@ == Stencil::of(
                7,
                7,
                seq![
                    (1, 1), (1, 2), (1, 3), (1, 5), (2, 1), (3, 4), (3, 5), (4, 2), (4, 3),
                    (4, 5), (5, 1), (5, 3), (5, 5),
                ],
            ),
    {
        let cells: [(usize, usize); 13] = [
            (1, 1), (1, 2), (1, 3), (1, 5), (2, 1), (3, 4), (3, 5), (4, 2), (4, 3), (4, 5),
            (5, 1), (5, 3), (5, 5),
        ];
        assert(cells@ =~= seq![
            (1, 1), (1, 2), (1, 3), (1, 5), (2, 1), (3, 4), (3, 5), (4, 2), (4, 3), (4, 5),
            (5, 1), (5, 3), (5, 5),
        ]);
        Self::with_cells(7, 7, &cells)
    }

    /// The block-laying engine that is a single row of cells, on a stencil 41 wide and 3 high.
    pub fn linear_engine() -> (pattern: Pattern)
        ensures
            pattern.wf(),
            pattern@ == Stencil::of(
                41,
                3,
                seq![
                    (1, 1), (1, 2), (1, 3), (1, 4), (1, 5), (1, 6), (1, 7), (1, 8), (1, 10),
                    (1, 11), (1, 12), (1, 13), (1, 14), (1, 18), (1, 19), (1, 20), (1, 27),
                    (1, 28), (1, 29), (1, 30), (1, 31), (1, 32), (1, 33), (1, 35), (1, 36),
                    (1, 37), (1, 38), (1, 39),
                ],
            ),
    {
        let cells: [(usize, usize); 28] = [
            (1, 1), (1, 2), (1, 3), (1, 4), (1, 5), (1, 6), (1, 7), (1, 8), (1, 10), (1, 11),
            (1, 12), (1, 13), (1, 14), (1, 18), (1, 19), (1, 20), (1, 27), (1, 28), (1, 29),
            (1, 30), (1, 31), (1, 32), (1, 33), (1, 35), (1, 36), (1, 37), (1, 38), (1, 39),
        ];
        assert(cells@ =~= seq![
            (1, 1), (1, 2), (1, 3), (1, 4), (1, 5), (1, 6), (1, 7), (1, 8), (1, 10), (1, 11),
            (1, 12), (1, 13), (1, 14), (1, 18), (1, 19), (1, 20), (1, 27), (1, 28), (1, 29),
            (1, 30), (1, 31), (1, 32), (1, 33), (1, 35), (1, 36), (1, 37), (1, 38), (1, 39),
        ]);
        Self::with_cells(41, 3, &cells)
    }

    /// Eater one, a still life that consumes gliders, on a 6 by 6 stencil.
    pub fn eater_one() -> (pattern: Pattern)
        ensures
            pattern.wf(),
            pattern@ == Stencil::of(
                6,
                6,
                seq![
                    (1, 1), (1, 2), (2, 1), (2, 3), (3, 3), (4, 3), (4, 4),
                ],
            ),
    {
        let cells: [(usize, usize); 7] = [
            (1, 1), (1, 2), (2, 1), (2, 3), (3, 3), (4, 3), (4, 4),
        ];
        assert(cells@ =~= seq![
            (1, 1), (1, 2), (2, 1), (2, 3), (3, 3), (4, 3), (4, 4),
        ]);
        Self::with_cells(6, 6, &cells)
    }
}

} // verus!
