//! What a whole search finds.
//!
//! A search processes the seed, then every table that `process` asks to
//! enqueue, until the frontier stays empty. The tables it archives are
//! the filled tables of the tree that the expansions span, whatever the
//! order in which the workers take them. This module names that
//! collection (`search`), shows that every step of a worker keeps it
//! (`lemma_step_keeps_outcome`), and states what it is: for a seed that
//! breaks no rule, each completion of the seed once; for any seed,
//! filled tables that hold the placed values of the seed.

use vstd::multiset::Multiset;
use vstd::prelude::*;

use crate::bus::table_bus::TableBus;
use crate::fillers::column_of;
use crate::fillers::row_of;
use crate::fillers::simple_filler::in_regions;
use crate::fillers::simple_filler::lemma_candidates_ascend;
use crate::fillers::simple_filler::lemma_candidates_complete;
use crate::fillers::simple_filler::spec_candidates;
use crate::point::Point;
use crate::point_selection::empty_point_search::empty_at;
use crate::point_selection::empty_point_search::first_empty;
use crate::point_selection::empty_point_search::lemma_first_empty_unique;
use crate::point_selection::empty_point_search::SearchDirection;
use crate::table::Table;
use crate::table::TABLE_SIZE;
use crate::worker::children;
use crate::worker::decides;
use crate::worker::expands_to;
use crate::worker::Action;
use crate::Selectable;
use crate::SudokuTable;

verus! {

/// The value that `table` holds at `point`.
pub open spec fn value(table: Table, point: Point) -> u8 {
    table.cell(point.x as int, point.y as int)
}

/// `other` lies inside the table, in the row, the column or the block
/// of `point`, and is not `point` itself.
pub open spec fn peers(point: Point, other: Point) -> bool {
    &&& other != point
    &&& other.within(TABLE_SIZE)
    &&& {
        ||| other.x == point.x
        ||| other.y == point.y
        ||| (other.x / 3 == point.x / 3 && other.y / 3 == point.y / 3)
    }
}

/// No placed value of `table` breaks a rule: each is a value from 1 to 9
/// that no other cell of its row, its column or its block holds.
pub open spec fn consistent(table: Table) -> bool {
    forall|p: Point, q: Point|
        p.within(TABLE_SIZE) && value(table, p) != 0 && #[trigger] peers(p, q) ==> {
            &&& 1 <= value(table, p) <= 9
            &&& value(table, q) != value(table, p)
        }
}

/// `solution` is filled, breaks no rule, and holds every placed value of
/// `table` where `table` holds it.
pub open spec fn completes(solution: Table, table: Table) -> bool {
    &&& solution.filled()
    &&& consistent(solution)
    &&& forall|p: Point|
        p.within(TABLE_SIZE) && #[trigger] value(table, p) != 0 ==> value(solution, p) == value(
            table,
            p,
        )
}

/// The three regions of a point inside a table hold the point and its
/// peers, and nothing else.
pub proof fn lemma_regions_are_peers(table: Table, point: Point, other: Point)
    requires
        point.within(TABLE_SIZE),
    ensures
        in_regions(&table, point, other) <==> other == point || peers(point, other),
{
    Table::lemma_zone_is_square(table, point);
    let column = column_of(&table, point);
    let row = row_of(&table, point);
    if other.within(TABLE_SIZE) && other.x == point.x {
        assert(column[other.y as int] == other);
    }
    if other.within(TABLE_SIZE) && other.y == point.y {
        assert(row[other.x as int] == other);
    }
    if column.contains(other) {
        let at = choose|at: int| 0 <= at < column.len() && column[at] == other;
    }
    if row.contains(other) {
        let at = choose|at: int| 0 <= at < row.len() && row[at] == other;
    }
}

/// The place of `point` in the scan order `direction`, counted from 0.
pub open spec fn rank(direction: SearchDirection, point: Point) -> int {
    match direction {
        SearchDirection::TopLeftBottom => 9 * point.x + point.y,
        SearchDirection::TopLeftRight => 9 * point.y + point.x,
        SearchDirection::BottomRightTop => 80 - (9 * point.y + point.x),
    }
}

/// A table with an empty cell has a first empty cell in every scan order.
pub proof fn lemma_first_empty_exists(table: Table, direction: SearchDirection, empty: Point)
    requires
        empty.within(TABLE_SIZE),
        empty_at(&table, empty),
    ensures
        exists|p: Point| first_empty(&table, direction, Some(p)),
    decreases rank(direction, empty),
{
    if exists|q: Point|
        q.within(TABLE_SIZE) && direction.precedes(q, empty) && #[trigger] empty_at(&table, q) {
        let q = choose|q: Point|
            q.within(TABLE_SIZE) && direction.precedes(q, empty) && #[trigger] empty_at(&table, q);
        lemma_first_empty_exists(table, direction, q);
    } else {
        assert(first_empty(&table, direction, Some(empty)));
    }
}

/// The cell at which a table that is not filled is expanded: its first
/// empty cell in the order `direction`.
pub open spec fn next_point(table: Table, direction: SearchDirection) -> Point {
    choose|p: Point| first_empty(&table, direction, Some(p))
}

/// The cell at which a table that is not filled is expanded lies inside
/// the table and is empty.
pub proof fn lemma_next_point(table: Table, direction: SearchDirection)
    requires
        !table.filled(),
    ensures
        first_empty(&table, direction, Some(next_point(table, direction))),
        next_point(table, direction).within(TABLE_SIZE),
        value(table, next_point(table, direction)) == 0,
{
    let (x, y) = choose|x: int, y: int|
        0 <= x < TABLE_SIZE && 0 <= y < TABLE_SIZE && #[trigger] table.cell(x, y) == 0;
    let empty = Point { x: x as usize, y: y as usize };
    assert(empty_at(&table, empty));
    lemma_first_empty_exists(table, direction, empty);
}

/// The filled tables that a search from `table` archives, each as often
/// as it is archived, where every table is expanded in the order
/// `direction` and no branch is followed for more than `depth` expansions.
pub open spec fn found(table: Table, direction: SearchDirection, depth: nat) -> Multiset<Table>
    decreases depth, 0nat,
{
    if table.filled() {
        Multiset::singleton(table)
    } else if depth == 0 {
        Multiset::empty()
    } else {
        found_among(
            children(table, next_point(table, direction)),
            direction,
            (depth - 1) as nat,
        )
    }
}

/// What searches from each of `tables` archive together.
pub open spec fn found_among(
    tables: Seq<Table>,
    direction: SearchDirection,
    depth: nat,
) -> Multiset<Table>
    decreases depth, tables.len() + 1,
{
    if tables.len() == 0 {
        Multiset::empty()
    } else {
        found_among(tables.drop_last(), direction, depth).add(
            found(tables.last(), direction, depth),
        )
    }
}

/// The number of cells among `cells` that are empty.
pub open spec fn zeros(cells: Seq<u8>) -> nat
    decreases cells.len(),
{
    if cells.len() == 0 {
        0
    } else {
        zeros(cells.drop_last()) + if cells.last() == 0 {
            1nat
        } else {
            0nat
        }
    }
}

/// The cells of a table, row by row.
pub open spec fn cells(table: Table) -> Seq<u8> {
    Seq::new(81, |k: int| table.cell(k % 9, k / 9))
}

/// The number of empty cells of a table.
pub open spec fn empties(table: Table) -> nat {
    zeros(cells(table))
}

/// Placing a value in an empty cell leaves one empty cell fewer.
pub proof fn lemma_zeros_update(cells: Seq<u8>, at: int, placed: u8)
    requires
        0 <= at < cells.len(),
        cells[at] == 0,
        placed != 0,
    ensures
        zeros(cells.update(at, placed)) + 1 == zeros(cells),
    decreases cells.len(),
{
    if at == cells.len() - 1 {
        assert(cells.update(at, placed).drop_last() =~= cells.drop_last());
    } else {
        assert(cells.update(at, placed).drop_last() =~= cells.drop_last().update(at, placed));
        lemma_zeros_update(cells.drop_last(), at, placed);
    }
}

/// A table that is not filled has an empty cell to count.
pub proof fn lemma_zeros_positive(cells: Seq<u8>, at: int)
    requires
        0 <= at < cells.len(),
        cells[at] == 0,
    ensures
        zeros(cells) > 0,
    decreases cells.len(),
{
    if at < cells.len() - 1 {
        lemma_zeros_positive(cells.drop_last(), at);
    }
}

/// What a write at a point inside the table leaves at every point inside
/// it, and the number of empty cells where a value is placed in an empty
/// cell.
pub proof fn lemma_child(table: Table, point: Point, placed: u8)
    requires
        point.within(TABLE_SIZE),
    ensures
        forall|q: Point|
            q.within(TABLE_SIZE) ==> #[trigger] value(
                table.with_cell(point.x as int, point.y as int, placed),
                q,
            ) == if q == point {
                placed
            } else {
                value(table, q)
            },
        value(table, point) == 0 && placed != 0 ==> empties(
            table.with_cell(point.x as int, point.y as int, placed),
        ) + 1 == empties(table),
        value(table, point) == 0 ==> empties(table) > 0,
{
    table.lemma_with_cell(point.x as int, point.y as int, placed);
    let child = table.with_cell(point.x as int, point.y as int, placed);
    let at = 9 * point.y + point.x;
    assert(at % 9 == point.x && at / 9 == point.y);
    if value(table, point) == 0 {
        lemma_zeros_positive(cells(table), at);
        if placed != 0 {
            assert(cells(child) =~= cells(table).update(at, placed)) by {
                assert forall|k: int| 0 <= k < 81 implies cells(child)[k] == cells(table).update(
                    at,
                    placed,
                )[k] by {
                    assert(0 <= k % 9 < 9 && 0 <= k / 9 < 9);
                    assert(k == 9 * (k / 9) + k % 9);
                }
            }
            lemma_zeros_update(cells(table), at, placed);
        }
    }
}

/// The candidates for an empty cell of a table are the values from 1 to
/// 9 that no peer of the cell holds.
pub proof fn lemma_candidate_iff(table: Table, point: Point, placed: u8)
    requires
        point.within(TABLE_SIZE),
        value(table, point) == 0,
    ensures
        spec_candidates(&table, point).contains(placed) <==> ({
            &&& 1 <= placed <= 9
            &&& forall|q: Point| #[trigger] peers(point, q) ==> value(table, q) != placed
        }),
{
    lemma_candidates_complete(&table, point, placed);
    let possible = table.spec_possible_values();
    if 1 <= placed <= 9 {
        assert(possible[placed - 1] == placed);
    }
    if possible.contains(placed) {
        let at = choose|at: int| 0 <= at < possible.len() && possible[at] == placed;
    }
    if spec_candidates(&table, point).contains(placed) {
        assert forall|q: Point| #[trigger] peers(point, q) implies value(table, q) != placed by {
            lemma_regions_are_peers(table, point, q);
            assert(table.spec_value_in_point(q) !== Ok(placed));
        }
    }
    if 1 <= placed <= 9 && forall|q: Point| #[trigger]
        peers(point, q) ==> value(table, q) != placed {
        assert forall|other: Point| in_regions(&table, point, other) implies #[trigger]
            table.spec_value_in_point(other) !== Ok(placed) by {
            lemma_regions_are_peers(table, point, other);
            if other != point {
                assert(peers(point, other));
            }
        }
    }
}

/// A table that breaks no rule still breaks none after a candidate was
/// placed in one of its empty cells.
pub proof fn lemma_child_consistent(table: Table, point: Point, placed: u8)
    requires
        consistent(table),
        point.within(TABLE_SIZE),
        value(table, point) == 0,
        spec_candidates(&table, point).contains(placed),
    ensures
        consistent(table.with_cell(point.x as int, point.y as int, placed)),
{
    let child = table.with_cell(point.x as int, point.y as int, placed);
    lemma_child(table, point, placed);
    lemma_candidate_iff(table, point, placed);
    assert forall|a: Point, b: Point|
        a.within(TABLE_SIZE) && value(child, a) != 0 && #[trigger] peers(a, b) implies 1 <= value(
        child,
        a,
    ) <= 9 && value(child, b) != value(child, a) by {
        if a == point {
            assert(peers(point, b));
        } else {
            assert(peers(a, b));
            if b == point {
                assert(peers(point, a));
            }
        }
    }
}

/// A filled table completes a child of a table exactly if it completes
/// the table and holds the value that was placed.
pub proof fn lemma_completes_child(solution: Table, table: Table, point: Point, placed: u8)
    requires
        point.within(TABLE_SIZE),
        value(table, point) == 0,
        placed != 0,
    ensures
        completes(solution, table.with_cell(point.x as int, point.y as int, placed)) <==> completes(
            solution,
            table,
        ) && value(solution, point) == placed,
{
    let child = table.with_cell(point.x as int, point.y as int, placed);
    lemma_child(table, point, placed);
    if completes(solution, child) {
        assert(value(child, point) != 0);
        assert forall|q: Point|
            q.within(TABLE_SIZE) && #[trigger] value(table, q) != 0 implies value(solution, q)
            == value(table, q) by {
            assert(value(child, q) != 0);
        }
    }
    if completes(solution, table) && value(solution, point) == placed {
        assert forall|q: Point|
            q.within(TABLE_SIZE) && #[trigger] value(child, q) != 0 implies value(solution, q)
            == value(child, q) by {
            if q != point {
                assert(value(table, q) != 0);
            }
        }
    }
}

/// What a completion of a table holds in one of its empty cells is a
/// candidate for that cell.
pub proof fn lemma_completion_is_candidate(solution: Table, table: Table, point: Point)
    requires
        completes(solution, table),
        point.within(TABLE_SIZE),
        value(table, point) == 0,
    ensures
        spec_candidates(&table, point).contains(value(solution, point)),
{
    let placed = value(solution, point);
    lemma_candidate_iff(table, point, placed);
    assert(solution.cell(point.x as int, point.y as int) != 0);
    let beside = Point { x: if point.x == 0 { 1 } else { 0 }, y: point.y };
    assert(peers(point, beside));
    assert forall|q: Point| #[trigger] peers(point, q) implies value(table, q) != placed by {
        if value(table, q) == placed {
            assert(value(table, q) != 0);
        }
    }
}

/// 1 if `holds`, else 0.
pub open spec fn once(holds: bool) -> nat {
    if holds {
        1
    } else {
        0
    }
}

/// A search from a table that breaks no rule archives each completion of
/// the table once, and nothing else.
pub proof fn lemma_found(
    table: Table,
    direction: SearchDirection,
    depth: nat,
    solution: Table,
)
    requires
        consistent(table),
        depth >= empties(table),
    ensures
        found(table, direction, depth).count(solution) == once(completes(solution, table)),
    decreases depth, 1nat, 0nat,
{
    broadcast use vstd::multiset::group_multiset_axioms;

    if table.filled() {
        if completes(solution, table) {
            assert forall|x: int, y: int|
                0 <= x < TABLE_SIZE && 0 <= y < TABLE_SIZE implies solution.cell(x, y)
                == table.cell(x, y) by {
                let q = Point { x: x as usize, y: y as usize };
                assert(table.cell(x, y) != 0);
                assert(value(table, q) != 0);
            }
            Table::lemma_cells_determine(solution, table);
        }
    } else {
        lemma_next_point(table, direction);
        let point = next_point(table, direction);
        let candidates = spec_candidates(&table, point);
        lemma_child(table, point, 1);
        lemma_found_prefix(table, direction, depth, solution, candidates.len());
        assert(children(table, point).take(candidates.len() as int) =~= children(table, point));
        assert(candidates.take(candidates.len() as int) =~= candidates);
        if completes(solution, table) {
            lemma_completion_is_candidate(solution, table, point);
        }
    }
}

/// What the searches from the first `count` children of a table archive:
/// each completion of the table that holds one of the first `count`
/// candidates in the expanded cell, once.
pub proof fn lemma_found_prefix(
    table: Table,
    direction: SearchDirection,
    depth: nat,
    solution: Table,
    count: nat,
)
    requires
        consistent(table),
        !table.filled(),
        depth >= empties(table),
        depth > 0,
        count <= spec_candidates(&table, next_point(table, direction)).len(),
    ensures
        found_among(
            children(table, next_point(table, direction)).take(count as int),
            direction,
            (depth - 1) as nat,
        ).count(solution) == once(
            completes(solution, table) && spec_candidates(
                &table,
                next_point(table, direction),
            ).take(count as int).contains(value(solution, next_point(table, direction))),
        ),
    decreases depth, 0nat, count,
{
    broadcast use vstd::multiset::group_multiset_axioms;

    lemma_next_point(table, direction);
    let point = next_point(table, direction);
    let candidates = spec_candidates(&table, point);
    let all = children(table, point);
    let held = value(solution, point);
    if count == 0 {
        assert(all.take(0).len() == 0);
        assert(candidates.take(0).len() == 0);
    } else {
        let last = count - 1;
        let placed = candidates[last];
        let child = table.with_cell(point.x as int, point.y as int, placed);
        lemma_found_prefix(table, direction, depth, solution, last as nat);
        lemma_candidates_ascend(table, point);
        assert(candidates.contains(placed));
        lemma_child_consistent(table, point, placed);
        lemma_child(table, point, placed);
        lemma_found(child, direction, (depth - 1) as nat, solution);
        lemma_completes_child(solution, table, point, placed);
        assert(all.take(count as int).drop_last() =~= all.take(last));
        assert(all.take(count as int).last() == child);
        let before = candidates.take(last);
        let now = candidates.take(count as int);
        assert(now =~= before.push(placed));
        if before.contains(held) {
            let at = choose|at: int| 0 <= at < before.len() && before[at] == held;
            assert(candidates[at] == held);
            assert(now[at] == held);
            assert(held != placed);
        }
        if now.contains(held) && held != placed {
            let at = choose|at: int| 0 <= at < now.len() && now[at] == held;
            assert(before[at] == held);
        }
        if held == placed {
            assert(now[last] == held);
        }
    }
}

/// The whole search from a puzzle that breaks no rule and has exactly one
/// completion archives that completion once, and nothing else.
pub proof fn lemma_unique_completion_is_found(
    seed: Table,
    direction: SearchDirection,
    solution: Table,
)
    requires
        consistent(seed),
        completes(solution, seed),
        forall|other: Table| completes(other, seed) ==> other == solution,
    ensures
        search(seed, direction) == Multiset::singleton(solution),
{
    broadcast use vstd::multiset::group_multiset_axioms;

    lemma_empties_bound(cells(seed));
    assert forall|other: Table|
        search(seed, direction).count(other) == Multiset::singleton(solution).count(other) by {
        lemma_found(seed, direction, 81, other);
    }
    assert(search(seed, direction) =~= Multiset::singleton(solution));
}

/// No more cells are empty than there are cells.
pub proof fn lemma_empties_bound(cells: Seq<u8>)
    ensures
        zeros(cells) <= cells.len(),
    decreases cells.len(),
{
    if cells.len() > 0 {
        lemma_empties_bound(cells.drop_last());
    }
}

/// `later` holds every placed value of `table` where `table` holds it.
pub open spec fn keeps(later: Table, table: Table) -> bool {
    forall|p: Point|
        p.within(TABLE_SIZE) && #[trigger] value(table, p) != 0 ==> value(later, p) == value(
            table,
            p,
        )
}

/// Every table that a search archives is filled and holds every placed
/// value of the seed, whether or not the seed breaks a rule.
pub proof fn lemma_found_keeps_seed(
    seed: Table,
    direction: SearchDirection,
    depth: nat,
    archived: Table,
)
    requires
        found(seed, direction, depth).count(archived) > 0,
    ensures
        archived.filled(),
        keeps(archived, seed),
    decreases depth, 1nat, 0nat,
{
    broadcast use vstd::multiset::group_multiset_axioms;

    if !seed.filled() {
        lemma_next_point(seed, direction);
        let point = next_point(seed, direction);
        let all = children(seed, point);
        assert(all.take(all.len() as int) =~= all);
        lemma_found_among_keeps_seed(seed, direction, depth, archived, all.len());
    }
}

/// Every table that the searches from the first `count` children of a
/// table archive is filled and holds every placed value of the table.
pub proof fn lemma_found_among_keeps_seed(
    seed: Table,
    direction: SearchDirection,
    depth: nat,
    archived: Table,
    count: nat,
)
    requires
        !seed.filled(),
        depth > 0,
        count <= children(seed, next_point(seed, direction)).len(),
        found_among(
            children(seed, next_point(seed, direction)).take(count as int),
            direction,
            (depth - 1) as nat,
        ).count(archived) > 0,
    ensures
        archived.filled(),
        keeps(archived, seed),
    decreases depth, 0nat, count,
{
    broadcast use vstd::multiset::group_multiset_axioms;

    lemma_next_point(seed, direction);
    let point = next_point(seed, direction);
    let all = children(seed, point);
    if count == 0 {
        assert(all.take(0).len() == 0);
    } else {
        let last = count - 1;
        let child = all[last];
        assert(all.take(count as int).drop_last() =~= all.take(last));
        assert(all.take(count as int).last() == child);
        if found(child, direction, (depth - 1) as nat).count(archived) > 0 {
            lemma_found_keeps_seed(child, direction, (depth - 1) as nat, archived);
            lemma_child(seed, point, spec_candidates(&seed, point)[last]);
            assert forall|p: Point|
                p.within(TABLE_SIZE) && #[trigger] value(seed, p) != 0 implies value(archived, p)
                == value(seed, p) by {
                assert(value(child, p) != 0);
            }
        } else {
            lemma_found_among_keeps_seed(seed, direction, depth, archived, last as nat);
        }
    }
}

/// A search from a seed that holds a value twice in a row, a column or a
/// block archives no table that breaks no rule: whatever it archives
/// holds that value twice in the same cells.
pub proof fn lemma_broken_seed_finds_no_solution(
    seed: Table,
    direction: SearchDirection,
    depth: nat,
    archived: Table,
    first: Point,
    second: Point,
)
    requires
        first.within(TABLE_SIZE),
        peers(first, second),
        value(seed, first) != 0,
        value(seed, second) == value(seed, first),
        found(seed, direction, depth).count(archived) > 0,
    ensures
        value(archived, second) == value(archived, first),
        !consistent(archived),
{
    lemma_found_keeps_seed(seed, direction, depth, archived);
    assert(value(seed, second) != 0);
}

/// A search that may follow a branch at least as far as the table has
/// empty cells archives the same tables however much further it may go.
pub proof fn lemma_depth_is_enough(
    table: Table,
    direction: SearchDirection,
    depth: nat,
    deeper: nat,
)
    requires
        depth >= empties(table),
        deeper >= empties(table),
    ensures
        found(table, direction, depth) == found(table, direction, deeper),
    decreases depth, 1nat, 0nat,
{
    if !table.filled() {
        lemma_next_point(table, direction);
        let point = next_point(table, direction);
        let all = children(table, point);
        lemma_child(table, point, 1);
        lemma_depth_is_enough_among(table, direction, depth, deeper, all.len());
        assert(all.take(all.len() as int) =~= all);
    }
}

/// The same for the searches from the first `count` children of a table.
pub proof fn lemma_depth_is_enough_among(
    table: Table,
    direction: SearchDirection,
    depth: nat,
    deeper: nat,
    count: nat,
)
    requires
        !table.filled(),
        depth >= empties(table),
        deeper >= empties(table),
        depth > 0,
        deeper > 0,
        count <= children(table, next_point(table, direction)).len(),
    ensures
        found_among(
            children(table, next_point(table, direction)).take(count as int),
            direction,
            (depth - 1) as nat,
        ) == found_among(
            children(table, next_point(table, direction)).take(count as int),
            direction,
            (deeper - 1) as nat,
        ),
    decreases depth, 0nat, count,
{
    lemma_next_point(table, direction);
    let point = next_point(table, direction);
    let all = children(table, point);
    if count > 0 {
        let last = count - 1;
        let placed = spec_candidates(&table, point)[last];
        lemma_candidates_ascend(table, point);
        lemma_child(table, point, placed);
        lemma_depth_is_enough_among(table, direction, depth, deeper, last as nat);
        lemma_depth_is_enough(all[last], direction, (depth - 1) as nat, (deeper - 1) as nat);
        assert(all.take(count as int).drop_last() =~= all.take(last));
        assert(all.take(count as int).last() == all[last]);
    } else {
        assert(all.take(0).len() == 0);
    }
}

/// What a whole search from `seed` archives.
pub open spec fn search(seed: Table, direction: SearchDirection) -> Multiset<Table> {
    found(seed, direction, 81)
}

/// What whole searches from each of `tables` archive together.
pub open spec fn search_all(tables: Seq<Table>, direction: SearchDirection) -> Multiset<Table> {
    found_among(tables, direction, 81)
}

/// What the searches from two lists of tables archive together is what
/// the searches from the joined list archive.
pub proof fn lemma_search_all_joined(
    front: Seq<Table>,
    back: Seq<Table>,
    direction: SearchDirection,
)
    ensures
        search_all(front + back, direction) == search_all(front, direction).add(
            search_all(back, direction),
        ),
    decreases back.len(),
{
    broadcast use vstd::multiset::group_multiset_axioms;

    if back.len() == 0 {
        assert(front + back =~= front);
        assert(search_all(front, direction).add(Multiset::empty()) =~= search_all(
            front,
            direction,
        ));
    } else {
        assert((front + back).drop_last() =~= front + back.drop_last());
        lemma_search_all_joined(front, back.drop_last(), direction);
        assert(search_all(front, direction).add(search_all(back.drop_last(), direction)).add(
            search(back.last(), direction),
        ) =~= search_all(front, direction).add(
            search_all(back.drop_last(), direction).add(search(back.last(), direction)),
        ));
    }
}

/// The queue after each of `tables` was inserted in turn into `queue`.
pub open spec fn insert_all(queue: Seq<Table>, tables: Seq<Table>) -> Seq<Table>
    decreases tables.len(),
{
    if tables.len() == 0 {
        queue
    } else {
        TableBus::spec_insert(insert_all(queue, tables.drop_last()), tables.last())
    }
}

/// Inserting tables into a frontier adds what the searches from them
/// archive, in whatever order they are then received.
pub proof fn lemma_search_all_inserted(
    queue: Seq<Table>,
    tables: Seq<Table>,
    direction: SearchDirection,
)
    ensures
        search_all(insert_all(queue, tables), direction) == search_all(tables, direction).add(
            search_all(queue, direction),
        ),
    decreases tables.len(),
{
    broadcast use vstd::multiset::group_multiset_axioms;

    if tables.len() == 0 {
        assert(Multiset::empty().add(search_all(queue, direction)) =~= search_all(
            queue,
            direction,
        ));
    } else {
        let earlier = insert_all(queue, tables.drop_last());
        lemma_search_all_inserted(queue, tables.drop_last(), direction);
        lemma_search_all_joined(seq![tables.last()], earlier, direction);
        lemma_search_all_one(tables.last(), direction);
        assert(search(tables.last(), direction).add(
            search_all(tables.drop_last(), direction).add(search_all(queue, direction)),
        ) =~= search_all(tables.drop_last(), direction).add(
            search(tables.last(), direction),
        ).add(search_all(queue, direction)));
    }
}

/// The searches from a list of one table archive what the search from
/// that table archives.
pub proof fn lemma_search_all_one(table: Table, direction: SearchDirection)
    ensures
        search_all(seq![table], direction) == search(table, direction),
{
    broadcast use vstd::multiset::group_multiset_axioms;

    let one = seq![table];
    assert(one.drop_last().len() == 0);
    assert(one.last() == table);
    assert(search_all(one.drop_last(), direction) =~= Multiset::empty());
    assert(Multiset::empty().add(search(table, direction)) =~= search(table, direction));
}

/// The frontier and the solutions after a worker took the front table of
/// `frontier` and performed `action`.
pub open spec fn after_step(frontier: Seq<Table>, solutions: Seq<Table>, action: Action) -> (
    Seq<Table>,
    Seq<Table>,
) {
    match action {
        Action::Archive(table) => (frontier.skip(1), TableBus::spec_insert(solutions, table)),
        Action::Enqueue(tables) => (insert_all(frontier.skip(1), tables@), solutions),
        Action::Discard => (frontier.skip(1), solutions),
    }
}

/// A step of a worker changes nothing in what the search will have
/// archived at its end: the solutions archived so far together with what
/// the searches from the tables of the frontier archive stay the same.
/// So when the frontier is empty at last, the solutions are what the
/// search from the seed archives.
pub proof fn lemma_step_keeps_outcome(
    frontier: Seq<Table>,
    solutions: Seq<Table>,
    direction: SearchDirection,
    action: Action,
)
    requires
        frontier.len() > 0,
        decides(frontier[0], direction, action),
    ensures
        after_step(frontier, solutions, action).1.to_multiset().add(
            search_all(after_step(frontier, solutions, action).0, direction),
        ) == solutions.to_multiset().add(search_all(frontier, direction)),
{
    broadcast use vstd::multiset::group_multiset_axioms;

    let table = frontier[0];
    let rest = frontier.skip(1);
    let kept = solutions.to_multiset();
    assert(frontier =~= seq![table] + rest);
    lemma_search_all_joined(seq![table], rest, direction);
    lemma_search_all_one(table, direction);
    if table.filled() {
        TableBus::lemma_insert_adds_one(solutions, table);
        assert(kept.insert(table).add(search_all(rest, direction)) =~= kept.add(
            Multiset::singleton(table).add(search_all(rest, direction)),
        ));
    } else {
        lemma_next_point(table, direction);
        let expanded = choose|p: Point| #[trigger]
            first_empty(&table, direction, Some(p)) && expands_to(table, p, action);
        let point = next_point(table, direction);
        lemma_first_empty_unique(&table, direction, Some(expanded), Some(point));
        let all = children(table, point);
        lemma_child(table, point, 1);
        lemma_empties_bound(cells(table));
        lemma_depth_is_enough_among(table, direction, 81, 82, all.len());
        assert(all.take(all.len() as int) =~= all);
        assert(search(table, direction) == search_all(all, direction));
        if all.len() == 0 {
            assert(search_all(all, direction) =~= Multiset::empty());
            assert(kept.add(search_all(rest, direction)) =~= kept.add(
                Multiset::empty().add(search_all(rest, direction)),
            ));
        } else {
            lemma_search_all_inserted(rest, all, direction);
        }
    }
}

} // verus!
