//! The candidate filter: one child for each value that the row, the
//! column and the block of a cell leave.

use vstd::prelude::*;

use crate::fillers::column_of;
use crate::fillers::column_values;
use crate::fillers::expandable;
use crate::fillers::row_of;
use crate::fillers::row_values;
use crate::fillers::zone_values;
use crate::fillers::zone_of;
use crate::fillers::Filler;
use crate::filtering::ascending;
use crate::filtering::lemma_filter_agree;
use crate::filtering::lemma_filter_ascending;
use crate::filtering::lemma_filter_twice;
use crate::filtering::lemma_kept_iff;
use crate::point::Point;
use crate::point_selection::line_point_selection::LinePointSelection;
use crate::point_selection::line_point_selection::SelectionType;
use crate::table::Table;
use crate::validators::free_of;
use crate::validators::holds;
use crate::validators::lemma_occurs_is_held;
use crate::validators::occurs;
use crate::validators::sequence_validator::SequenceValidator;
use crate::validators::targets;
use crate::validators::unheld;
use crate::validators::TableValidator;
use crate::Selectable;
use crate::Settable;
use crate::SquareTable;
use crate::SudokuTable;

verus! {

/// Fills a cell with every value that conflicts with no value already
/// placed in the cell's row, column or block.
///
/// This is a single pass over the three regions. It does not detect a
/// table that only several cells together make unsolvable.
pub struct SimpleFiller {}

/// The test that a value passes if no cell of the block, the column or the
/// row of `point` holds it as a placed value.
pub open spec fn unclaimed<T: SudokuTable + Selectable + SquareTable>(
    table: &T,
    point: Point,
) -> spec_fn(u8) -> bool {
    |value: u8|
        {
            &&& free_of(table, zone_of(table, point))(value)
            &&& free_of(table, column_of(table, point))(value)
            &&& free_of(table, row_of(table, point))(value)
        }
}

/// The candidates for the cell at `point`: the possible values of the
/// table that are unclaimed there, in the order of the possible values.
pub open spec fn spec_candidates<T: SudokuTable + Selectable + SquareTable>(
    table: &T,
    point: Point,
) -> Seq<u8> {
    table.spec_possible_values().filter(unclaimed(table, point))
}

/// One of the three regions of `point` holds `other`.
pub open spec fn in_regions<T: SudokuTable + SquareTable>(
    table: &T,
    point: Point,
    other: Point,
) -> bool {
    ||| zone_of(table, point).contains(other)
    ||| column_of(table, point).contains(other)
    ||| row_of(table, point).contains(other)
}

/// Borrows every point of `points`.
pub fn borrowed(points: &Vec<Point>) -> (refs: Vec<&Point>)
    ensures
        targets(refs@) == points@,
{
    let mut refs: Vec<&Point> = Vec::new();
    let mut i: usize = 0;
    while i < points.len()
        invariant
            i <= points.len(),
            refs.len() == i,
            forall|k: int| 0 <= k < i ==> *#[trigger] refs[k] == points[k],
        decreases points.len() - i,
    {
        refs.push(&points[i]);
        i += 1;
    }
    assert(targets(refs@) =~= points@);
    refs
}

impl SimpleFiller {
    /// The candidates for the cell at `point`, in the order of the table's
    /// possible values: those that no cell of the block, the column or the
    /// row of `point` holds.
    pub fn candidates<T>(&self, table: &T, point: &Point) -> (values: Vec<u8>) where
        T: Selectable + Settable + SudokuTable + SquareTable,

        requires
            expandable(table, *point),
        ensures
            values@ == spec_candidates(table, *point),
    {
        let sequence_validator = SequenceValidator {  };
        let line_point_selection = LinePointSelection {  };
        let zone_points = table.points_in_zone(point).unwrap();
        let zone_possibilites = sequence_validator.get_possibilities(
            table,
            borrowed(&zone_points),
        );
        let vertical_points = line_point_selection.get_points(
            table,
            point,
            SelectionType::Vertical,
        ).unwrap();
        let horizontal_points = line_point_selection.get_points(
            table,
            point,
            SelectionType::Horizontal,
        ).unwrap();
        let vertical_possibilites = sequence_validator.get_possibilities(
            table,
            borrowed(&vertical_points),
        );
        let horizontal_possibilites = sequence_validator.get_possibilities(
            table,
            borrowed(&horizontal_points),
        );
        let ghost possible = table.spec_possible_values();
        let ghost in_zone = free_of(table, zone_of(table, *point));
        let ghost in_column = free_of(table, column_of(table, *point));
        let ghost in_row = free_of(table, row_of(table, *point));
        let ghost all = unclaimed(table, *point);
        let mut common_possibilites: Vec<u8> = Vec::new();
        let mut i: usize = 0;
        proof {
            reveal(Seq::filter);
        }
        while i < zone_possibilites.len()
            invariant
                i <= zone_possibilites.len(),
                zone_possibilites@ == possible.filter(in_zone),
                vertical_possibilites@ == possible.filter(in_column),
                horizontal_possibilites@ == possible.filter(in_row),
                all == unclaimed(table, *point),
                in_zone == free_of(table, zone_of(table, *point)),
                in_column == free_of(table, column_of(table, *point)),
                in_row == free_of(table, row_of(table, *point)),
                common_possibilites@ == zone_possibilites@.take(i as int).filter(all),
            decreases zone_possibilites.len() - i,
        {
            let value = zone_possibilites[i];
            let in_vertical = holds(&vertical_possibilites, value);
            let in_horizontal = holds(&horizontal_possibilites, value);
            proof {
                reveal(Seq::filter);
                assert(zone_possibilites@.take(i + 1).drop_last() =~= zone_possibilites@.take(
                    i as int,
                ));
                assert(zone_possibilites@.contains(value));
                lemma_kept_iff(possible, in_zone, value);
                lemma_kept_iff(possible, in_column, value);
                lemma_kept_iff(possible, in_row, value);
                assert(all(value) == (in_vertical && in_horizontal));
            }
            if in_vertical && in_horizontal {
                common_possibilites.push(value);
            }
            i += 1;
        }
        proof {
            assert(zone_possibilites@.take(zone_possibilites.len() as int) =~= zone_possibilites@);
            lemma_filter_twice(possible, in_zone, all);
        }
        common_possibilites
    }
}

impl Filler for SimpleFiller {
    /// The values of `possible` that are a placed value of none of the
    /// three regions, in their order.
    open spec fn spec_values(
        &self,
        possible: Seq<u8>,
        zone: Seq<u8>,
        column: Seq<u8>,
        row: Seq<u8>,
    ) -> Seq<u8> {
        possible.filter(
            |value: u8| unheld(zone)(value) && unheld(column)(value) && unheld(row)(value),
        )
    }

    /// One child for each candidate, in the order of the candidates;
    /// `None` where no candidate is left, which marks a dead branch.
    fn fill<T>(&self, table: &T, point: &Point) -> (tables: Option<Vec<T>>) where
        T: Selectable + Settable + SudokuTable + SquareTable,

        ensures
            match tables {
                None => spec_candidates(table, *point).len() == 0,
                Some(v) => {
                    &&& v.len() == spec_candidates(table, *point).len()
                    &&& forall|i: int|
                        0 <= i < v.len() ==> table.spec_set_in_point(
                            *point,
                            spec_candidates(table, *point)[i],
                        ) === Ok(#[trigger] v[i])
                },
            },
    {
        proof {
            lemma_written_is_candidates(table, *point);
        }
        let common_possibilites = self.candidates(table, point);
        if common_possibilites.len() == 0 {
            return None;
        }
        let mut table_vec: Vec<T> = Vec::with_capacity(common_possibilites.len());
        let mut i: usize = 0;
        while i < common_possibilites.len()
            invariant
                i <= common_possibilites.len(),
                common_possibilites@ == spec_candidates(table, *point),
                expandable(table, *point),
                table_vec.len() == i,
                forall|k: int|
                    0 <= k < i ==> table.spec_set_in_point(*point, common_possibilites[k]) === Ok(
                        #[trigger] table_vec[k],
                    ),
            decreases common_possibilites.len() - i,
        {
            let value = common_possibilites[i];
            proof {
                assert(spec_candidates(table, *point).contains(value));
                lemma_kept_iff(table.spec_possible_values(), unclaimed(table, *point), value);
            }
            let child = table.set_in_point(point, value).unwrap();
            table_vec.push(*child);
            i += 1;
        }
        Some(table_vec)
    }
}

/// What the simple filler writes at a cell that can be expanded are the
/// candidates for that cell.
pub proof fn lemma_written_is_candidates<T: SudokuTable + Settable + Selectable + SquareTable>(
    table: &T,
    point: Point,
)
    requires
        expandable(table, point),
    ensures
        (SimpleFiller {  }).spec_values(
            table.spec_possible_values(),
            zone_values(table, point),
            column_values(table, point),
            row_values(table, point),
        ) == spec_candidates(table, point),
{
    let possible = table.spec_possible_values();
    let zone = zone_values(table, point);
    let column = column_values(table, point);
    let row = row_values(table, point);
    let test = |value: u8| unheld(zone)(value) && unheld(column)(value) && unheld(row)(value);
    let all = unclaimed(table, point);
    assert forall|i: int| 0 <= i < possible.len() implies test(#[trigger] possible[i]) == all(
        possible[i],
    ) by {
        lemma_occurs_is_held(table, zone_of(table, point), possible[i]);
        lemma_occurs_is_held(table, column_of(table, point), possible[i]);
        lemma_occurs_is_held(table, row_of(table, point), possible[i]);
    }
    lemma_filter_agree(possible, test, all);
}

/// No candidate for a cell equals a placed value of a cell in the row,
/// the column or the block of that cell.
pub proof fn lemma_candidates_sound<T: SudokuTable + Selectable + SquareTable>(
    table: &T,
    point: Point,
    value: u8,
    other: Point,
)
    requires
        spec_candidates(table, point).contains(value),
        in_regions(table, point, other),
        value != 0,
    ensures
        table.spec_value_in_point(other) !== Ok(value),
{
    lemma_kept_iff(table.spec_possible_values(), unclaimed(table, point), value);
    if table.spec_value_in_point(other) === Ok(value) {
        let zone = zone_of(table, point);
        let column = column_of(table, point);
        let row = row_of(table, point);
        if zone.contains(other) {
            let at = choose|at: int| 0 <= at < zone.len() && zone[at] == other;
            assert(occurs(table, zone, value));
        } else if column.contains(other) {
            let at = choose|at: int| 0 <= at < column.len() && column[at] == other;
            assert(occurs(table, column, value));
        } else {
            let at = choose|at: int| 0 <= at < row.len() && row[at] == other;
            assert(occurs(table, row, value));
        }
    }
}

/// A value is a candidate for a cell exactly if it is a possible value of
/// the table and, unless it is 0, no cell in the row, the column or the
/// block of that cell holds it.
pub proof fn lemma_candidates_complete<T: SudokuTable + Selectable + SquareTable>(
    table: &T,
    point: Point,
    value: u8,
)
    ensures
        spec_candidates(table, point).contains(value) <==> ({
            &&& table.spec_possible_values().contains(value)
            &&& value != 0 ==> forall|other: Point|
                in_regions(table, point, other) ==> #[trigger] table.spec_value_in_point(other)
                    !== Ok(value)
        }),
{
    lemma_kept_iff(table.spec_possible_values(), unclaimed(table, point), value);
    if value != 0 {
        if spec_candidates(table, point).contains(value) {
            assert forall|other: Point| in_regions(table, point, other) implies #[trigger]
                table.spec_value_in_point(other) !== Ok(value) by {
                lemma_candidates_sound(table, point, value, other);
            }
        }
        if forall|other: Point|
            in_regions(table, point, other) ==> #[trigger] table.spec_value_in_point(other)
                !== Ok(value) {
            let zone = zone_of(table, point);
            let column = column_of(table, point);
            let row = row_of(table, point);
            if occurs(table, zone, value) {
                let at = choose|at: int|
                    0 <= at < zone.len() && #[trigger] table.spec_value_in_point(zone[at]) === Ok(
                        value,
                    );
                assert(in_regions(table, point, zone[at]));
            }
            if occurs(table, column, value) {
                let at = choose|at: int|
                    0 <= at < column.len() && #[trigger] table.spec_value_in_point(column[at])
                        === Ok(value);
                assert(in_regions(table, point, column[at]));
            }
            if occurs(table, row, value) {
                let at = choose|at: int|
                    0 <= at < row.len() && #[trigger] table.spec_value_in_point(row[at]) === Ok(
                        value,
                    );
                assert(in_regions(table, point, row[at]));
            }
        }
    }
}

/// The candidates for a cell of a 9×9 table are values from 1 to 9 in
/// ascending order.
pub proof fn lemma_candidates_ascend(table: Table, point: Point)
    ensures
        ascending(spec_candidates(&table, point)),
        forall|i: int|
            0 <= i < spec_candidates(&table, point).len() ==> 1 <= #[trigger] spec_candidates(
                &table,
                point,
            )[i] <= 9,
{
    let possible = table.spec_possible_values();
    let candidates = spec_candidates(&table, point);
    lemma_filter_ascending(possible, unclaimed(&table, point));
    assert forall|i: int| 0 <= i < candidates.len() implies 1 <= #[trigger] candidates[i]
        <= 9 by {
        assert(candidates.contains(candidates[i]));
        lemma_kept_iff(possible, unclaimed(&table, point), candidates[i]);
        let at = choose|at: int| 0 <= at < possible.len() && possible[at] == candidates[i];
    }
}

} // verus!
