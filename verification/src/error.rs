//! The ways in which a request to the grid can be refused.

use vstd::prelude::*;

verus! {

/// Why an operation on a grid was refused.
#[derive(Clone, Copy, Debug, PartialEq, Eq, Structural)]
pub enum GridError {
    /// A row, column or cell index lies outside the grid.
    OutOfBounds,
    /// An argument has a value that the operation does not support.
    InvalidArgument,
    /// The grid would hold more cells than the machine can address.
    AllocationFailure,
}

} // verus!
