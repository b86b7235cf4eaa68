//! Coordinates and the error raised when one falls outside a table.

use vstd::prelude::*;
use vstd::std_specs::cmp::PartialEqSpecImpl;

verus! {

/// The coordinate of a point that was found out of range.
#[derive(Debug, PartialEq, Eq, Structural, Clone, Copy)]
pub enum Axis {
    X,
    Y,
}

/// Failure of a point-addressed operation.
#[derive(Debug, PartialEq, Eq, Structural, Clone, Copy)]
pub enum CoordinateError {
    OutOfRange(Axis),
}

/// A cell position: `x` is the column, `y` the row.
///
/// A point is neither valid nor invalid by itself; it is checked against
/// the bounds of a table when it is used.
#[derive(Debug, Clone, Copy)]
pub struct Point {
    pub x: usize,
    pub y: usize,
}

impl Point {
    /// The error that a table of the given side raises for this point, if
    /// any. The column is checked before the row.
    pub open spec fn range_error(self, side: usize) -> Option<CoordinateError> {
        if self.x >= side {
            Some(CoordinateError::OutOfRange(Axis::X))
        } else if self.y >= side {
            Some(CoordinateError::OutOfRange(Axis::Y))
        } else {
            None
        }
    }

    /// Both coordinates lie below `side`.
    pub open spec fn within(self, side: usize) -> bool {
        self.x < side && self.y < side
    }
}

impl PartialEq for Point {
    fn eq(&self, other: &Self) -> (equal: bool) {
        self.x == other.x && self.y == other.y
    }
}

impl PartialEqSpecImpl for Point {
    open spec fn obeys_eq_spec() -> bool {
        true
    }

    open spec fn eq_spec(&self, other: &Self) -> bool {
        self.x == other.x && self.y == other.y
    }
}

} // verus!
