//! The eight neighbours of a cell as a lazy sequence.

use crate::topology::cell_index;
use crate::universe::Universe;
use vstd::prelude::*;

verus! {

/// Walks the eight neighbours of a cell in the order NW, N, NE, W, E, SW, S,
/// SE. It holds the row and column of the cell, the rows and columns next to
/// it, and in `state` how many times it has been asked, up to 255.
pub struct NeighbourIter {
    pub width: usize,
    pub row: usize,
    pub col: usize,
    pub north: usize,
    pub south: usize,
    pub east: usize,
    pub west: usize,
    pub state: u8,
}

impl NeighbourIter {
    /// The eight indices that a fresh iterator hands out, in order.
    pub open spec fn yields(&self) -> Seq<int> {
        seq![
            cell_index(self.width as int, self.north as int, self.west as int),
            cell_index(self.width as int, self.north as int, self.col as int),
            cell_index(self.width as int, self.north as int, self.east as int),
            cell_index(self.width as int, self.row as int, self.west as int),
            cell_index(self.width as int, self.row as int, self.east as int),
            cell_index(self.width as int, self.south as int, self.west as int),
            cell_index(self.width as int, self.south as int, self.col as int),
            cell_index(self.width as int, self.south as int, self.east as int),
        ]
    }

    /// Each of the eight indices fits the machine word.
    pub open spec fn wf(&self) -> bool {
        forall|k: int| 0 <= k < 8 ==> #[trigger] self.yields()[k] <= usize::MAX
    }

    /// Hands out the next neighbour, or `None` once all eight are out. Every
    /// call counts: `state` goes up by one, also on a call that returns
    /// `None`, until it reaches 255, where it stays. The coordinates are never
    /// changed.
    pub fn next(&mut self) -> (item: Option<usize>)
        requires
            old(self).wf(),
        ensures
            final(self).wf(),
            final(self).width == old(self).width,
            final(self).row == old(self).row,
            final(self).col == old(self).col,
            final(self).north == old(self).north,
            final(self).south == old(self).south,
            final(self).east == old(self).east,
            final(self).west == old(self).west,
            final(self).state == if old(self).state < 255 {
                old(self).state + 1
            } else {
                255
            },
            match item {
                Some(index) => old(self).state < 8 && index == old(self).yields()[old(
                    self,
                ).state as int],
                None => old(self).state >= 8,
            },
    {
        let ghost all = self.yields();
        proof {
            assert(all[0] <= usize::MAX && all[1] <= usize::MAX && all[2] <= usize::MAX && all[3]
                <= usize::MAX && all[4] <= usize::MAX && all[5] <= usize::MAX && all[6]
                <= usize::MAX && all[7] <= usize::MAX);
        }
        let result = match self.state {
            0 => Some(Universe::get_index(self.width, self.north, self.west)),
            1 => Some(Universe::get_index(self.width, self.north, self.col)),
            2 => Some(Universe::get_index(self.width, self.north, self.east)),
            3 => Some(Universe::get_index(self.width, self.row, self.west)),
            4 => Some(Universe::get_index(self.width, self.row, self.east)),
            5 => Some(Universe::get_index(self.width, self.south, self.west)),
            6 => Some(Universe::get_index(self.width, self.south, self.col)),
            7 => Some(Universe::get_index(self.width, self.south, self.east)),
            _ => None,
        };
        if self.state < 255 {
            self.state += 1;
        }
        result
    }
}

} // verus!
