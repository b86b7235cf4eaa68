//! Validators narrow the values a cell may take by looking at the cells
//! of one region.

use vstd::prelude::*;

use crate::filtering::lemma_filter_agree;
use crate::point::Point;
use crate::Selectable;
use crate::SudokuTable;

pub mod sequence_validator;
pub mod vertical_validator;
pub mod zone_validator;

verus! {

/// The points that a vector of borrowed points refers to.
pub open spec fn targets(points: Seq<&Point>) -> Seq<Point> {
    points.map_values(|p: &Point| *p)
}

/// Every cell at `points` can be read.
pub open spec fn all_readable<T: Selectable>(table: &T, points: Seq<Point>) -> bool {
    forall|i: int| 0 <= i < points.len() ==> (#[trigger] table.spec_value_in_point(points[i])) is Ok
}

/// One of the cells at `points` holds `value`.
pub open spec fn occurs<T: Selectable>(table: &T, points: Seq<Point>, value: u8) -> bool {
    exists|i: int|
        0 <= i < points.len() && #[trigger] table.spec_value_in_point(points[i]) === Ok(value)
}

/// The test that a value passes unless it is a placed value (not 0) of
/// one of the cells at `points`.
pub open spec fn free_of<T: Selectable>(table: &T, points: Seq<Point>) -> spec_fn(u8) -> bool {
    |value: u8| !(value != 0 && occurs(table, points, value))
}

/// The values `1, 2, ..., side`.
pub open spec fn counting(side: usize) -> Seq<u8> {
    Seq::new(side as nat, |i: int| (i + 1) as u8)
}

/// The values that the cells at `points` hold, one for each point.
pub open spec fn cell_values<T: Selectable>(table: &T, points: Seq<Point>) -> Seq<u8> {
    Seq::new(points.len(), |i: int| table.spec_value_in_point(points[i])->Ok_0)
}

/// The test that every value but 0 passes.
pub open spec fn is_placed() -> spec_fn(u8) -> bool {
    |value: u8| value != 0
}

/// The test that a value passes unless it is a placed value (not 0) among
/// `held`.
pub open spec fn unheld(held: Seq<u8>) -> spec_fn(u8) -> bool {
    |value: u8| !(value != 0 && held.contains(value))
}

/// Narrows the possible values of a table by the cells of a region.
pub trait TableValidator {
    /// What the validator leaves of the values `possible` where the cells
    /// it looks at hold `held`.
    spec fn spec_possibilities(&self, possible: Seq<u8>, held: Seq<u8>) -> Seq<u8>;

    /// Whether cells that hold `held` are consistent.
    spec fn spec_validate(&self, held: Seq<u8>) -> bool;

    /// The possible values of `table` that the cells at `point` leave.
    fn get_possibilities<T: Selectable + SudokuTable>(
        &self,
        table: &T,
        point: Vec<&Point>,
    ) -> (values: Vec<u8>)
        requires
            all_readable(table, targets(point@)),
        ensures
            values@ == self.spec_possibilities(
                table.spec_possible_values(),
                cell_values(table, targets(point@)),
            ),
    ;

    /// Whether the cells at `point` are consistent.
    fn validate<T: Selectable + SudokuTable>(&self, table: T, point: Vec<&Point>) -> (valid: bool)
        ensures
            valid == self.spec_validate(cell_values(&table, targets(point@))),
    ;
}

/// Whether `value` is an element of `values`.
pub fn holds(values: &Vec<u8>, value: u8) -> (found: bool)
    ensures
        found == values@.contains(value),
{
    let mut i: usize = 0;
    while i < values.len()
        invariant
            i <= values.len(),
            forall|k: int| 0 <= k < i ==> values[k] != value,
        decreases values.len() - i,
    {
        if values[i] == value {
            return true;
        }
        i += 1;
    }
    false
}

/// The values of `candidates` that do not occur in `placed`, in their
/// order.
pub fn without(candidates: &Vec<u8>, placed: &Vec<u8>) -> (kept: Vec<u8>)
    ensures
        kept@ == candidates@.filter(|value: u8| !placed@.contains(value)),
{
    let ghost absent = |value: u8| !placed@.contains(value);
    let mut kept: Vec<u8> = Vec::new();
    let mut i: usize = 0;
    proof {
        reveal(Seq::filter);
    }
    while i < candidates.len()
        invariant
            i <= candidates.len(),
            absent == (|value: u8| !placed@.contains(value)),
            kept@ == candidates@.take(i as int).filter(absent),
        decreases candidates.len() - i,
    {
        let value = candidates[i];
        let found = holds(placed, value);
        proof {
            reveal(Seq::filter);
            assert(candidates@.take(i + 1).drop_last() =~= candidates@.take(i as int));
        }
        if !found {
            kept.push(value);
        }
        i += 1;
    }
    assert(candidates@.take(candidates.len() as int) =~= candidates@);
    kept
}

/// The values `1, 2, ..., side` as a vector.
pub fn count_up(side: usize) -> (values: Vec<u8>)
    requires
        side <= u8::MAX,
    ensures
        values@ == counting(side),
{
    let mut values: Vec<u8> = Vec::new();
    let mut i: usize = 0;
    while i < side
        invariant
            i <= side,
            side <= u8::MAX,
            values@ == counting(side).take(i as int),
        decreases side - i,
    {
        values.push((i + 1) as u8);
        assert(values@ =~= counting(side).take(i + 1));
        i += 1;
    }
    assert(counting(side).take(side as int) =~= counting(side));
    values
}

/// The values that the cells at `points` hold, one for each point.
pub fn values_at<T: Selectable>(table: &T, points: &Vec<Point>) -> (values: Vec<u8>)
    requires
        all_readable(table, points@),
    ensures
        values.len() == points.len(),
        forall|i: int|
            0 <= i < points.len() ==> table.spec_value_in_point(#[trigger] points[i]) === Ok(
                values[i],
            ),
{
    let mut values: Vec<u8> = Vec::new();
    let mut i: usize = 0;
    while i < points.len()
        invariant
            i <= points.len(),
            all_readable(table, points@),
            values.len() == i,
            forall|k: int|
                0 <= k < i ==> table.spec_value_in_point(#[trigger] points[k]) === Ok(values[k]),
        decreases points.len() - i,
    {
        let value = table.value_in_point(&points[i]).unwrap();
        values.push(value);
        i += 1;
    }
    values
}

/// The values other than 0 that the cells at `points` hold, in the order
/// of the points.
pub fn placed_values<T: Selectable>(table: &T, points: &Vec<&Point>) -> (placed: Vec<u8>)
    requires
        all_readable(table, targets(points@)),
    ensures
        placed@ == cell_values(table, targets(points@)).filter(is_placed()),
{
    let ghost held = cell_values(table, targets(points@));
    let mut placed: Vec<u8> = Vec::new();
    let mut i: usize = 0;
    proof {
        reveal(Seq::filter);
    }
    while i < points.len()
        invariant
            i <= points.len(),
            all_readable(table, targets(points@)),
            held == cell_values(table, targets(points@)),
            placed@ == held.take(i as int).filter(is_placed()),
        decreases points.len() - i,
    {
        assert(targets(points@)[i as int] == *points[i as int]);
        let value = table.value_in_point(points[i]).unwrap();
        proof {
            reveal(Seq::filter);
            assert(held.take(i + 1).drop_last() =~= held.take(i as int));
            assert(held.take(i + 1).last() == value);
        }
        if value != 0 {
            placed.push(value);
        }
        i += 1;
    }
    assert(held.take(points.len() as int) =~= held);
    placed
}

/// The values of `1..=side` that the cells at `points` leave, ascending.
pub fn unplaced<T: Selectable>(table: &T, side: usize, points: &Vec<Point>) -> (values: Vec<u8>)
    requires
        side <= u8::MAX,
        all_readable(table, points@),
    ensures
        values@ == counting(side).filter(free_of(table, points@)),
{
    let possible_values = count_up(side);
    let current_values = values_at(table, points);
    let values = without(&possible_values, &current_values);
    proof {
        let absent = |value: u8| !current_values@.contains(value);
        let free = free_of(table, points@);
        assert forall|k: int| 0 <= k < possible_values.len() implies absent(
            #[trigger] possible_values[k],
        ) == free(possible_values[k]) by {
            lemma_absent_is_free(table, points@, current_values@, possible_values[k]);
        }
        lemma_filter_agree(possible_values@, absent, free);
    }
    values
}

/// Where `held` lists the values of the cells at `points`, a value other
/// than 0 is absent from `held` exactly if it is free of `points`.
pub proof fn lemma_absent_is_free<T: Selectable>(
    table: &T,
    points: Seq<Point>,
    held: Seq<u8>,
    value: u8,
)
    requires
        held.len() == points.len(),
        forall|i: int|
            0 <= i < points.len() ==> table.spec_value_in_point(#[trigger] points[i]) === Ok(
                held[i],
            ),
        value != 0,
    ensures
        !held.contains(value) <==> free_of(table, points)(value),
{
    if held.contains(value) {
        let at = choose|at: int| 0 <= at < held.len() && held[at] == value;
        assert(table.spec_value_in_point(points[at]) === Ok(value));
    }
    if occurs(table, points, value) {
        let at = choose|at: int|
            0 <= at < points.len() && #[trigger] table.spec_value_in_point(points[at]) === Ok(
                value,
            );
        assert(held[at] == value);
    }
}

/// A value is among the placed values of the cells at `points` exactly if
/// it is not free of them.
pub proof fn lemma_placed_is_not_free<T: Selectable>(table: &T, points: Seq<Point>, value: u8)
    requires
        all_readable(table, points),
    ensures
        cell_values(table, points).filter(is_placed()).contains(value) <==> !free_of(
            table,
            points,
        )(value),
{
    let held = cell_values(table, points);
    if held.filter(is_placed()).contains(value) {
        held.lemma_filter_contains_rev(is_placed(), value);
        let at = choose|at: int|
            0 <= at < held.filter(is_placed()).len() && held.filter(is_placed())[at] == value;
        held.lemma_filter_pred(is_placed(), at);
        let k = choose|k: int| 0 <= k < held.len() && held[k] == value;
        assert(table.spec_value_in_point(points[k]) === Ok(value));
    }
    if value != 0 && occurs(table, points, value) {
        let k = choose|k: int|
            0 <= k < points.len() && #[trigger] table.spec_value_in_point(points[k]) === Ok(value);
        assert(held[k] == value);
        held.lemma_filter_contains(is_placed(), k);
    }
}

/// Where the cells at `points` can be read, one of them holds `value`
/// exactly if `value` is among their values.
pub proof fn lemma_occurs_is_held<T: Selectable>(table: &T, points: Seq<Point>, value: u8)
    requires
        all_readable(table, points),
    ensures
        occurs(table, points, value) <==> cell_values(table, points).contains(value),
{
    let held = cell_values(table, points);
    if occurs(table, points, value) {
        let at = choose|at: int|
            0 <= at < points.len() && #[trigger] table.spec_value_in_point(points[at]) === Ok(
                value,
            );
        assert(held[at] == value);
    }
    if held.contains(value) {
        let at = choose|at: int| 0 <= at < held.len() && held[at] == value;
        assert(table.spec_value_in_point(points[at]) === Ok(value));
    }
}

/// Where the cells at `points` can be read, the values that are free of
/// them are the values that are not held by them.
pub proof fn lemma_free_is_unheld<T: Selectable>(table: &T, points: Seq<Point>, values: Seq<u8>)
    requires
        all_readable(table, points),
    ensures
        values.filter(free_of(table, points)) == values.filter(
            unheld(cell_values(table, points)),
        ),
{
    let free = free_of(table, points);
    let test = unheld(cell_values(table, points));
    assert forall|i: int| 0 <= i < values.len() implies free(#[trigger] values[i]) == test(
        values[i],
    ) by {
        lemma_occurs_is_held(table, points, values[i]);
    }
    lemma_filter_agree(values, free, test);
}

} // verus!
