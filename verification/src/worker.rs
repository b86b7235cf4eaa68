//! What a worker does with a table it has received.
//!
//! A worker alternates between receiving a table from the frontier and
//! acting on it. Receiving is `TableBus::receive`; `process` decides the
//! action. Both are pure decisions: whoever runs the worker performs the
//! pauses and the queue operations they ask for.

use vstd::prelude::*;

use crate::fillers::lemma_table_expandable;
use crate::fillers::simple_filler::spec_candidates;
use crate::fillers::simple_filler::SimpleFiller;
use crate::fillers::Filler;
use crate::point::Point;
use crate::point_selection::empty_point_search::empty_at;
use crate::point_selection::empty_point_search::first_empty;
use crate::point_selection::empty_point_search::EmptyPointSearch;
use crate::point_selection::empty_point_search::SearchDirection;
use crate::table::Table;
use crate::table::TABLE_SIZE;
use crate::Selectable;

verus! {

/// What is to be done with a table taken from the frontier.
pub enum Action {
    /// The table is filled: add it to the solutions.
    Archive(Table),
    /// The table was expanded at its next empty cell: add every child to
    /// the frontier.
    Enqueue(Vec<Table>),
    /// No value can be placed in the next empty cell: the branch is dead
    /// and nothing is queued.
    Discard,
}

/// The children of `table` at `point`: one for each candidate, in the
/// order of the candidates, with the candidate written at `point`.
pub open spec fn children(table: Table, point: Point) -> Seq<Table> {
    Seq::new(
        spec_candidates(&table, point).len(),
        |i: int| table.with_cell(point.x as int, point.y as int, spec_candidates(&table, point)[i]),
    )
}

/// `action` is what the expansion of `table` at `point` asks for.
pub open spec fn expands_to(table: Table, point: Point, action: Action) -> bool {
    if spec_candidates(&table, point).len() == 0 {
        action is Discard
    } else {
        action matches Action::Enqueue(v) && v@ == children(table, point)
    }
}

/// `action` is what `process` decides for `table`.
pub open spec fn decides(table: Table, direction: SearchDirection, action: Action) -> bool {
    if table.filled() {
        action matches Action::Archive(t) && t == table
    } else {
        exists|p: Point| #[trigger]
            first_empty(&table, direction, Some(p)) && expands_to(table, p, action)
    }
}

/// Decides what to do with a table taken from the frontier.
///
/// A filled table is a solution. Any other table is expanded at its first
/// empty cell in the order `direction`; if no value can be placed there,
/// the table is dropped.
pub fn process(table: Table, direction: SearchDirection) -> (action: Action)
    ensures
        decides(table, direction, action),
{
    if table.is_filled() {
        return Action::Archive(table);
    }
    let point_search = EmptyPointSearch {  };
    proof {
        Table::lemma_filled_iff_no_empty_point(table);
    }
    let next_empty_point = point_search.next_empty(&table, direction);
    match next_empty_point {
        None => {
            proof {
                assert forall|p: Point| p.within(TABLE_SIZE) implies #[trigger]
                    table.spec_value_in_point(p) !== Ok(0) by {
                    assert(!empty_at(&table, p));
                }
                assert(false);
            }
            Action::Discard
        },
        Some(point) => {
            let filler = SimpleFiller {  };
            proof {
                lemma_table_expandable(table, point);
            }
            let action = match filler.fill(&table, &point) {
                Some(table_vec) => {
                    assert(table_vec@ =~= children(table, point));
                    Action::Enqueue(table_vec)
                },
                None => Action::Discard,
            };
            assert(first_empty(&table, direction, Some(point)) && expands_to(table, point, action));
            action
        },
    }
}

} // verus!
