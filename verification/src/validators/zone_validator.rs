//! The validator of a block.

use vstd::prelude::*;

use crate::point::Point;
use crate::validators::all_readable;
use crate::validators::counting;
use crate::validators::free_of;
use crate::validators::unplaced;
use crate::Selectable;
use crate::SquareTable;
use crate::SudokuTable;

verus! {

/// Removes from the values `1..=side` those that stand in a block.
pub struct VerticalValidator {}

impl VerticalValidator {
    /// The points of the block that holds `point`.
    pub open spec fn zone<T: SudokuTable>(table: &T, point: Point) -> Seq<Point> {
        table.spec_points_in_zone(point)->Ok_0
    }

    /// Whether the block is consistent.
    pub fn validate<T: Selectable + SudokuTable>(self, table: &T) -> (valid: bool)
        ensures
            valid,
    {
        true
    }

    /// The values from 1 to the table's side that no cell of the block
    /// that holds `point` holds, ascending.
    pub fn get_possibilites<T: Selectable + SudokuTable + SquareTable>(
        self,
        table: &T,
        point: &Point,
    ) -> (values: Vec<u8>)
        requires
            table.spec_dimensions() <= u8::MAX,
            table.spec_points_in_zone(*point) is Ok,
            all_readable(table, Self::zone(table, *point)),
        ensures
            values@ == counting(table.spec_dimensions()).filter(
                free_of(table, Self::zone(table, *point)),
            ),
    {
        let side = table.dimensions();
        let points = table.points_in_zone(point).unwrap();
        unplaced(table, side, &points)
    }
}

} // verus!
