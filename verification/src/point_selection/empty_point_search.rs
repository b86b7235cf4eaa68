//! Finding the next cell to fill.

use vstd::prelude::*;

use crate::point::Point;
use crate::Selectable;
use crate::SquareTable;

verus! {

/// The order in which the cells of a table are scanned.
pub enum SearchDirection {
    /// Column by column from the left, each from the top down.
    TopLeftBottom,
    /// Row by row from the top, each from the left.
    TopLeftRight,
    /// Row by row from the bottom, each from the right.
    BottomRightTop,
}

impl SearchDirection {
    /// `p` is scanned before `q`.
    pub open spec fn precedes(self, p: Point, q: Point) -> bool {
        match self {
            SearchDirection::TopLeftBottom => p.x < q.x || (p.x == q.x && p.y < q.y),
            SearchDirection::TopLeftRight => p.y < q.y || (p.y == q.y && p.x < q.x),
            SearchDirection::BottomRightTop => p.y > q.y || (p.y == q.y && p.x > q.x),
        }
    }
}

/// Every point inside the table can be read.
pub open spec fn readable<T: Selectable + SquareTable>(table: &T) -> bool {
    forall|p: Point|
        p.within(table.spec_dimensions()) ==> (#[trigger] table.spec_value_in_point(p)) is Ok
}

/// The cell at `p` can be read and is empty.
pub open spec fn empty_at<T: Selectable>(table: &T, p: Point) -> bool {
    table.spec_value_in_point(p) === Ok(0)
}

/// `found` is the first empty cell of `table` in the order `direction`, or
/// `None` where no cell inside the table is empty.
pub open spec fn first_empty<T: Selectable + SquareTable>(
    table: &T,
    direction: SearchDirection,
    found: Option<Point>,
) -> bool {
    match found {
        Some(p) => {
            &&& p.within(table.spec_dimensions())
            &&& empty_at(table, p)
            &&& forall|q: Point|
                q.within(table.spec_dimensions()) && direction.precedes(q, p)
                    ==> !#[trigger] empty_at(table, q)
        },
        None => forall|q: Point|
            q.within(table.spec_dimensions()) ==> !#[trigger] empty_at(table, q),
    }
}

/// The three scan orders never disagree on whether a table is complete:
/// if one of them finds no empty cell then none does, and what any of
/// them finds is an empty cell inside the table.
pub proof fn lemma_scan_orders_agree<T: Selectable + SquareTable>(
    table: &T,
    first: SearchDirection,
    second: SearchDirection,
    found_first: Option<Point>,
    found_second: Option<Point>,
)
    requires
        first_empty(table, first, found_first),
        first_empty(table, second, found_second),
    ensures
        found_first is None <==> found_second is None,
        found_first matches Some(p) ==> p.within(table.spec_dimensions()) && empty_at(table, p),
        found_second matches Some(p) ==> p.within(table.spec_dimensions()) && empty_at(table, p),
{
}

/// A scan order determines what the search finds.
pub proof fn lemma_first_empty_unique<T: Selectable + SquareTable>(
    table: &T,
    direction: SearchDirection,
    found: Option<Point>,
    other: Option<Point>,
)
    requires
        first_empty(table, direction, found),
        first_empty(table, direction, other),
    ensures
        found == other,
{
    if found is Some && other is Some {
        let p = found->Some_0;
        let q = other->Some_0;
        if p != q {
            assert(direction.precedes(p, q) || direction.precedes(q, p));
        }
    }
}

/// Scans a table for its next empty cell.
pub struct EmptyPointSearch {}

impl EmptyPointSearch {
    /// The first point in the order `search_direction` whose cell holds 0,
    /// or `None` if the table has no such cell.
    pub fn next_empty(
        &self,
        table: &(impl Selectable + SquareTable),
        search_direction: SearchDirection,
    ) -> (found: Option<Point>)
        requires
            readable(table),
        ensures
            first_empty(table, search_direction, found),
    {
        let side = table.dimensions();
        match search_direction {
            SearchDirection::TopLeftBottom => {
                let mut x: usize = 0;
                while x < side
                    invariant
                        search_direction is TopLeftBottom,
                        x <= side,
                        side == table.spec_dimensions(),
                        readable(table),
                        forall|q: Point|
                            q.within(side) && q.x < x ==> !#[trigger] empty_at(table, q),
                    decreases side - x,
                {
                    let mut y: usize = 0;
                    while y < side
                        invariant
                            search_direction is TopLeftBottom,
                            x < side,
                            y <= side,
                            side == table.spec_dimensions(),
                            readable(table),
                            forall|q: Point|
                                q.within(side) && q.x < x ==> !#[trigger] empty_at(table, q),
                            forall|q: Point|
                                q.within(side) && q.x == x && q.y < y ==> !#[trigger] empty_at(
                                    table,
                                    q,
                                ),
                        decreases side - y,
                    {
                        let here = Point { x, y };
                        assert(here.within(side));
                        if table.value_in_point(&here).unwrap() == 0 {
                            return Some(here);
                        }
                        y += 1;
                    }
                    x += 1;
                }
            },
            SearchDirection::TopLeftRight => {
                let mut y: usize = 0;
                while y < side
                    invariant
                        search_direction is TopLeftRight,
                        y <= side,
                        side == table.spec_dimensions(),
                        readable(table),
                        forall|q: Point|
                            q.within(side) && q.y < y ==> !#[trigger] empty_at(table, q),
                    decreases side - y,
                {
                    let mut x: usize = 0;
                    while x < side
                        invariant
                            search_direction is TopLeftRight,
                            y < side,
                            x <= side,
                            side == table.spec_dimensions(),
                            readable(table),
                            forall|q: Point|
                                q.within(side) && q.y < y ==> !#[trigger] empty_at(table, q),
                            forall|q: Point|
                                q.within(side) && q.y == y && q.x < x ==> !#[trigger] empty_at(
                                    table,
                                    q,
                                ),
                        decreases side - x,
                    {
                        let here = Point { x, y };
                        assert(here.within(side));
                        if table.value_in_point(&here).unwrap() == 0 {
                            return Some(here);
                        }
                        x += 1;
                    }
                    y += 1;
                }
            },
            SearchDirection::BottomRightTop => {
                let mut rows_left: usize = side;
                while rows_left > 0
                    invariant
                        search_direction is BottomRightTop,
                        rows_left <= side,
                        side == table.spec_dimensions(),
                        readable(table),
                        forall|q: Point|
                            q.within(side) && q.y >= rows_left ==> !#[trigger] empty_at(table, q),
                    decreases rows_left,
                {
                    let y: usize = rows_left - 1;
                    let mut columns_left: usize = side;
                    while columns_left > 0
                        invariant
                            search_direction is BottomRightTop,
                            y < side,
                            y + 1 == rows_left,
                            columns_left <= side,
                            side == table.spec_dimensions(),
                            readable(table),
                            forall|q: Point|
                                q.within(side) && q.y >= rows_left ==> !#[trigger] empty_at(
                                    table,
                                    q,
                                ),
                            forall|q: Point|
                                q.within(side) && q.y == y && q.x >= columns_left
                                    ==> !#[trigger] empty_at(table, q),
                        decreases columns_left,
                    {
                        let x: usize = columns_left - 1;
                        let here = Point { x, y };
                        assert(here.within(side));
                        if table.value_in_point(&here).unwrap() == 0 {
                            return Some(here);
                        }
                        columns_left = x;
                    }
                    rows_left = y;
                }
            },
        }
        None
    }
}

} // verus!
