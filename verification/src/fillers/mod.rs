//! Fillers expand a table at one cell into its child tables.

use vstd::prelude::*;

use crate::point::Point;
use crate::point_selection::line_point_selection::LinePointSelection;
use crate::point_selection::line_point_selection::SelectionType;
use crate::table::Table;
use crate::table::TABLE_SIZE;
use crate::validators::all_readable;
use crate::validators::cell_values;
use crate::Selectable;
use crate::Settable;
use crate::SquareTable;
use crate::SudokuTable;

pub mod simple_filler;

verus! {

/// The points of the block that holds `point`.
pub open spec fn zone_of<T: SudokuTable>(table: &T, point: Point) -> Seq<Point> {
    table.spec_points_in_zone(point)->Ok_0
}

/// The points of the column through `point`.
pub open spec fn column_of<T: SquareTable>(table: &T, point: Point) -> Seq<Point> {
    LinePointSelection::line(table.spec_dimensions(), point, SelectionType::Vertical)
}

/// The points of the row through `point`.
pub open spec fn row_of<T: SquareTable>(table: &T, point: Point) -> Seq<Point> {
    LinePointSelection::line(table.spec_dimensions(), point, SelectionType::Horizontal)
}

/// The values that the cells of the block that holds `point` hold.
pub open spec fn zone_values<T: SudokuTable + Selectable>(table: &T, point: Point) -> Seq<u8> {
    cell_values(table, zone_of(table, point))
}

/// The values that the cells of the column through `point` hold.
pub open spec fn column_values<T: SquareTable + Selectable>(table: &T, point: Point) -> Seq<u8> {
    cell_values(table, column_of(table, point))
}

/// The values that the cells of the row through `point` hold.
pub open spec fn row_values<T: SquareTable + Selectable>(table: &T, point: Point) -> Seq<u8> {
    cell_values(table, row_of(table, point))
}

/// The cell at `point` can be expanded: the point lies inside the table,
/// its three regions exist and can be read, and every possible value can
/// be written at it.
pub open spec fn expandable<T: SudokuTable + Settable + Selectable + SquareTable>(
    table: &T,
    point: Point,
) -> bool {
    &&& point.within(table.spec_dimensions())
    &&& table.spec_points_in_zone(point) is Ok
    &&& all_readable(table, zone_of(table, point))
    &&& all_readable(table, column_of(table, point))
    &&& all_readable(table, row_of(table, point))
    &&& forall|value: u8| #[trigger]
        table.spec_possible_values().contains(value) ==> table.spec_set_in_point(point, value) is Ok
}

/// Every point inside a 9×9 table can be expanded.
pub proof fn lemma_table_expandable(table: Table, point: Point)
    requires
        point.within(TABLE_SIZE),
    ensures
        expandable(&table, point),
{
    let zone = zone_of(&table, point);
    assert forall|i: int| 0 <= i < zone.len() implies (#[trigger] table.spec_value_in_point(
        zone[i],
    )) is Ok by {
        assert(0 <= i / 3 < 3 && 0 <= i % 3 < 3);
    }
}

/// Produces the tables that follow from a table by filling one cell.
pub trait Filler {
    /// The values that the filler writes, in order, where the table allows
    /// the values `possible` and the cells of the block, of the column and
    /// of the row of the cell hold `zone`, `column` and `row`.
    spec fn spec_values(
        &self,
        possible: Seq<u8>,
        zone: Seq<u8>,
        column: Seq<u8>,
        row: Seq<u8>,
    ) -> Seq<u8>;

    /// The children of `t` at `p`: one for each value that the filler
    /// writes, in their order, or `None` where it writes none.
    fn fill<T>(&self, t: &T, p: &Point) -> (tables: Option<Vec<T>>) where
        T: SudokuTable + Settable + Selectable + SquareTable,

        requires
            expandable(t, *p),
        ensures
            ({
                let written = self.spec_values(
                    t.spec_possible_values(),
                    zone_values(t, *p),
                    column_values(t, *p),
                    row_values(t, *p),
                );
                match tables {
                    None => written.len() == 0,
                    Some(v) => {
                        &&& v.len() > 0
                        &&& v.len() == written.len()
                        &&& forall|i: int|
                            0 <= i < v.len() ==> t.spec_set_in_point(*p, written[i]) === Ok(
                                #[trigger] v[i],
                            )
                    },
                }
            }),
    ;
}

} // verus!
