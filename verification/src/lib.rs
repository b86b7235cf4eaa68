//! Parallel branch-and-expand search over 9×9 number-placement grids.
//!
//! The crate holds the sequential core of the search: an immutable grid,
//! the region arithmetic, the candidate filter, the empty-cell scan, the
//! LIFO frontier, the per-worker decision step and the statement of what
//! a whole search archives. Every function carries a contract over a
//! mathematical model of its arguments.
//!
//! The four table traits below are the seams between the components. Each
//! executable method is tied to a specification function of the same trait,
//! so that generic code can state exactly what it computes.

use vstd::prelude::*;

pub mod bus;
pub mod fillers;
pub mod filtering;
pub mod point;
pub mod point_selection;
pub mod render;
pub mod search;
pub mod table;
pub mod validators;
pub mod worker;

use crate::point::CoordinateError;
use crate::point::Point;

verus! {

/// A table whose cells can be read by position.
pub trait Selectable {
    /// What a read at `point` yields.
    spec fn spec_value_in_point(&self, point: Point) -> Result<u8, CoordinateError>;

    fn value_in_point(&self, point: &Point) -> (value: Result<u8, CoordinateError>)
        ensures
            value == self.spec_value_in_point(*point),
    ;
}

/// A table that can produce a copy of itself with one cell replaced.
///
/// The receiver is never modified: branches of a search share their
/// ancestors.
pub trait Settable: Sized {
    /// The table that a write of `value` at `point` yields.
    spec fn spec_set_in_point(&self, point: Point, value: u8) -> Result<Self, CoordinateError>;

    fn set_in_point(&self, point: &Point, value: u8) -> (table: Result<Box<Self>, CoordinateError>)
        ensures
            match table {
                Ok(t) => self.spec_set_in_point(*point, value) === Ok(*t),
                Err(e) => self.spec_set_in_point(*point, value) === Err(e),
            },
    ;
}

/// The rules of the puzzle that depend on the table's shape.
pub trait SudokuTable {
    /// The points of the block that holds `point`, in the order in which
    /// `points_in_zone` lists them.
    spec fn spec_points_in_zone(&self, point: Point) -> Result<Seq<Point>, CoordinateError>;

    /// The values a cell may take, in the order in which `possible_values`
    /// lists them.
    spec fn spec_possible_values(&self) -> Seq<u8>;

    fn points_in_zone(&self, point: &Point) -> (points: Result<Vec<Point>, CoordinateError>)
        ensures
            match points {
                Ok(v) => self.spec_points_in_zone(*point) === Ok(v@),
                Err(e) => self.spec_points_in_zone(*point) === Err(e),
            },
    ;

    fn possible_values(&self) -> (values: Vec<u8>)
        ensures
            values@ == self.spec_possible_values(),
    ;
}

/// A table with as many rows as columns.
pub trait SquareTable {
    /// The number of rows, which is the number of columns.
    spec fn spec_dimensions(&self) -> usize;

    fn dimensions(&self) -> (side: usize)
        ensures
            side == self.spec_dimensions(),
    ;
}

} // verus!
