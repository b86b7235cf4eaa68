//! The validator of a column.

use vstd::prelude::*;

use crate::point::Point;
use crate::point_selection::line_point_selection::LinePointSelection;
use crate::point_selection::line_point_selection::SelectionType;
use crate::validators::all_readable;
use crate::validators::counting;
use crate::validators::free_of;
use crate::validators::unplaced;
use crate::Selectable;
use crate::SquareTable;

verus! {

/// Removes from the values `1..=side` those that stand in a column.
pub struct VerticalValidator {}

impl VerticalValidator {
    /// The column through `point`.
    pub open spec fn column<T: SquareTable>(table: &T, point: Point) -> Seq<Point> {
        LinePointSelection::line(table.spec_dimensions(), point, SelectionType::Vertical)
    }

    /// Whether the column is consistent.
    pub fn validate<T: Selectable>(self, table: &T) -> (valid: bool)
        ensures
            valid,
    {
        true
    }

    /// The values from 1 to the table's side that no cell of the column
    /// through `point` holds, ascending.
    pub fn get_possibilites<T: Selectable + SquareTable>(
        self,
        table: &T,
        point: &Point,
    ) -> (values: Vec<u8>)
        requires
            table.spec_dimensions() <= u8::MAX,
            all_readable(table, Self::column(table, *point)),
        ensures
            values@ == counting(table.spec_dimensions()).filter(
                free_of(table, Self::column(table, *point)),
            ),
    {
        let side = table.dimensions();
        let ghost column = Self::column(table, *point);
        let mut points: Vec<Point> = Vec::new();
        let mut i: usize = 0;
        while i < side
            invariant
                i <= side,
                side == table.spec_dimensions(),
                column == Self::column(table, *point),
                points@ == column.take(i as int),
            decreases side - i,
        {
            points.push(Point { x: point.x, y: i });
            assert(points@ =~= column.take(i + 1));
            i += 1;
        }
        assert(column.take(side as int) =~= column);
        unplaced(table, side, &points)
    }
}

} // verus!
