//! The row and the column through a point.

use vstd::prelude::*;

use crate::point::CoordinateError;
use crate::point::Point;
use crate::SquareTable;

verus! {

/// Lists the points of a line of a square table.
pub struct LinePointSelection {}

/// Which line through a point is meant.
pub enum SelectionType {
    /// The column: the points with the same `x`, by ascending `y`.
    Vertical,
    /// The row: the points with the same `y`, by ascending `x`.
    Horizontal,
}

impl LinePointSelection {
    /// The line through `point` in a table of the given side.
    pub open spec fn line(side: usize, point: Point, selection_type: SelectionType) -> Seq<Point> {
        match selection_type {
            SelectionType::Vertical => Seq::new(
                side as nat,
                |i: int| Point { x: point.x, y: i as usize },
            ),
            SelectionType::Horizontal => Seq::new(
                side as nat,
                |i: int| Point { x: i as usize, y: point.y },
            ),
        }
    }

    /// What `get_points` returns for a table of the given side.
    pub open spec fn spec_get_points(
        side: usize,
        point: Point,
        selection_type: SelectionType,
    ) -> Result<Seq<Point>, CoordinateError> {
        match point.range_error(side) {
            Some(e) => Err(e),
            None => Ok(Self::line(side, point, selection_type)),
        }
    }

    /// The points that share `point`'s column (`Vertical`) or row
    /// (`Horizontal`), in ascending order of the other coordinate.
    ///
    /// Fails when `point` lies outside the table; the column is checked
    /// first.
    pub fn get_points(
        &self,
        table: &impl SquareTable,
        point: &Point,
        selection_type: SelectionType,
    ) -> (points: Result<Vec<Point>, CoordinateError>)
        ensures
            match points {
                Ok(v) => Self::spec_get_points(table.spec_dimensions(), *point, selection_type)
                    === Ok(v@),
                Err(e) => Self::spec_get_points(table.spec_dimensions(), *point, selection_type)
                    === Err(e),
            },
    {
        let side = table.dimensions();
        if point.x >= side {
            return Err(CoordinateError::OutOfRange(crate::point::Axis::X));
        }
        if point.y >= side {
            return Err(CoordinateError::OutOfRange(crate::point::Axis::Y));
        }
        let ghost expected = Self::line(side, *point, selection_type);
        let mut points: Vec<Point> = Vec::new();
        match selection_type {
            SelectionType::Vertical => {
                let mut i: usize = 0;
                while i < side
                    invariant
                        i <= side,
                        expected == Self::line(side, *point, SelectionType::Vertical),
                        points@ == expected.take(i as int),
                    decreases side - i,
                {
                    points.push(Point { x: point.x, y: i });
                    assert(expected.take(i + 1) =~= expected.take(i as int).push(
                        expected[i as int],
                    ));
                    i += 1;
                }
            },
            SelectionType::Horizontal => {
                let mut i: usize = 0;
                while i < side
                    invariant
                        i <= side,
                        expected == Self::line(side, *point, SelectionType::Horizontal),
                        points@ == expected.take(i as int),
                    decreases side - i,
                {
                    points.push(Point { x: i, y: point.y });
                    assert(expected.take(i + 1) =~= expected.take(i as int).push(
                        expected[i as int],
                    ));
                    i += 1;
                }
            },
        }
        assert(expected.take(side as int) =~= expected);
        Ok(points)
    }
}

} // verus!
