//! Conway's Game of Life on a torus.
//!
//! A [`Universe`] keeps its cells in two packed bit sets, one current and one
//! for the next generation, and beside each a set of active cells: the cells
//! that changed in the last step and their neighbours, which are the only ones
//! that the next step has to evaluate. A [`Pattern`] is a small fixed shape that
//! can be stamped into a universe at any quarter turn.
//!
//! Every function states what it computes over a mathematical model of the
//! grid (`rules::Grid`), and the laws that tie the functions together are
//! proved in `rules`, `stamp` and `tiling`.

pub mod bitset;
pub mod error;
pub mod neighbour_iter;
pub mod pattern;
pub mod render;
pub mod rules;
pub mod stamp;
pub mod tiling;
pub mod topology;
pub mod universe;

pub use error::GridError;
pub use neighbour_iter::NeighbourIter;
pub use pattern::Pattern;
pub use universe::Universe;
