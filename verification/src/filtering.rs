//! Facts about filtered sequences of values that the candidate filter and
//! the validators rest on.

use vstd::prelude::*;

verus! {

/// `values` is strictly ascending.
pub open spec fn ascending(values: Seq<u8>) -> bool {
    forall|i: int, j: int| 0 <= i < j < values.len() ==> values[i] < values[j]
}

/// Two tests that agree on every element of a sequence keep the same
/// elements of it.
pub proof fn lemma_filter_agree(values: Seq<u8>, p: spec_fn(u8) -> bool, q: spec_fn(u8) -> bool)
    requires
        forall|i: int| 0 <= i < values.len() ==> p(#[trigger] values[i]) == q(values[i]),
    ensures
        values.filter(p) == values.filter(q),
    decreases values.len(),
{
    reveal(Seq::filter);
    if values.len() > 0 {
        lemma_filter_agree(values.drop_last(), p, q);
    }
}

/// A value is kept by a filter exactly if it is an element that passes
/// the test.
pub proof fn lemma_kept_iff(values: Seq<u8>, test: spec_fn(u8) -> bool, value: u8)
    ensures
        values.filter(test).contains(value) <==> values.contains(value) && test(value),
{
    if values.filter(test).contains(value) {
        values.lemma_filter_contains_rev(test, value);
        let at = choose|at: int|
            0 <= at < values.filter(test).len() && values.filter(test)[at] == value;
        values.lemma_filter_pred(test, at);
    }
    if values.contains(value) && test(value) {
        let at = choose|at: int| 0 <= at < values.len() && values[at] == value;
        values.lemma_filter_contains(test, at);
    }
}

/// Filtering by a test and then by a stronger one is filtering by the
/// stronger one.
pub proof fn lemma_filter_twice(
    values: Seq<u8>,
    first: spec_fn(u8) -> bool,
    second: spec_fn(u8) -> bool,
)
    requires
        forall|value: u8| #[trigger] second(value) ==> first(value),
    ensures
        values.filter(first).filter(second) == values.filter(second),
    decreases values.len(),
{
    reveal(Seq::filter);
    if values.len() > 0 {
        lemma_filter_twice(values.drop_last(), first, second);
        if first(values.last()) {
            let kept = values.drop_last().filter(first);
            assert(kept.push(values.last()).drop_last() =~= kept);
        }
    }
}

/// A filter keeps a strictly ascending sequence strictly ascending.
pub proof fn lemma_filter_ascending(values: Seq<u8>, test: spec_fn(u8) -> bool)
    requires
        ascending(values),
    ensures
        ascending(values.filter(test)),
    decreases values.len(),
{
    reveal(Seq::filter);
    if values.len() > 0 {
        let rest = values.drop_last();
        lemma_filter_ascending(rest, test);
        if test(values.last()) {
            let kept = rest.filter(test);
            assert forall|i: int| 0 <= i < kept.len() implies kept[i] < values.last() by {
                assert(kept.contains(kept[i]));
                rest.lemma_filter_contains_rev(test, kept[i]);
                let at = choose|at: int| 0 <= at < rest.len() && rest[at] == kept[i];
                assert(values[at] == kept[i]);
            }
        }
    }
}

} // verus!
