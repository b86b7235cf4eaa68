//! The validator that the candidate filter uses for every region.

use vstd::prelude::*;

use crate::filtering::lemma_filter_agree;
use crate::point::Point;
use crate::validators::free_of;
use crate::validators::lemma_free_is_unheld;
use crate::validators::lemma_placed_is_not_free;
use crate::validators::placed_values;
use crate::validators::targets;
use crate::validators::unheld;
use crate::validators::without;
use crate::validators::TableValidator;
use crate::Selectable;
use crate::SudokuTable;

verus! {

/// Removes from the possible values of a table the values that a given
/// list of cells already holds.
pub struct SequenceValidator {}

impl TableValidator for SequenceValidator {
    /// The values of `possible` that are not placed values among `held`,
    /// in their order.
    open spec fn spec_possibilities(&self, possible: Seq<u8>, held: Seq<u8>) -> Seq<u8> {
        possible.filter(unheld(held))
    }

    /// Every list of cells passes.
    open spec fn spec_validate(&self, held: Seq<u8>) -> bool {
        true
    }

    fn get_possibilities<T: Selectable + SudokuTable>(
        &self,
        table: &T,
        point: Vec<&Point>,
    ) -> (values: Vec<u8>)
        ensures
            values@ == table.spec_possible_values().filter(free_of(table, targets(point@))),
    {
        let possibilities = table.possible_values();
        let current_values = placed_values(table, &point);
        let values = without(&possibilities, &current_values);
        proof {
            let absent = |value: u8| !current_values@.contains(value);
            let free = free_of(table, targets(point@));
            assert forall|k: int| 0 <= k < possibilities.len() implies absent(
                #[trigger] possibilities[k],
            ) == free(possibilities[k]) by {
                lemma_placed_is_not_free(table, targets(point@), possibilities[k]);
            }
            lemma_filter_agree(possibilities@, absent, free);
            lemma_free_is_unheld(table, targets(point@), possibilities@);
        }
        values
    }

    fn validate<T: Selectable + SudokuTable>(&self, table: T, point: Vec<&Point>) -> (valid: bool) {
        true
    }
}

} // verus!
