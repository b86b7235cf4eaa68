//! The grid: a 9×9 matrix of cell values that is never modified in place.

use vstd::prelude::*;

use crate::point::Axis;
use crate::point::CoordinateError;
use crate::point::Point;
use crate::Selectable;
use crate::Settable;
use crate::SquareTable;
use crate::SudokuTable;

verus! {

/// The number of rows and of columns of a [`Table`].
pub const TABLE_SIZE: usize = 9;

/// The side of a block.
pub const ZONE_SIZE: usize = 3;

/// A 9×9 grid of values; 0 stands for an empty cell.
///
/// Nothing restricts the values a table holds: a table with the same value
/// twice in a row is representable. Legality is the business of the
/// candidate filter, not of the table.
#[derive(Debug)]
pub struct Table {
    fields: [[u8; TABLE_SIZE]; TABLE_SIZE],
}

/// The anchor coordinate of the block that holds coordinate `c`.
pub open spec fn zone_anchor(c: int) -> int {
    (c / 3) * 3
}

impl Table {
    /// The value in column `x` of row `y`.
    pub closed spec fn cell(&self, x: int, y: int) -> u8 {
        self.fields[y][x]
    }

    /// The table that differs from this one in column `x` of row `y` only,
    /// where it holds `value`.
    pub closed spec fn with_cell(&self, x: int, y: int, value: u8) -> Table {
        Table {
            fields: vstd::array::spec_array_update(
                self.fields,
                y,
                vstd::array::spec_array_update(self.fields[y], x, value),
            ),
        }
    }

    /// No cell is empty.
    pub open spec fn filled(&self) -> bool {
        forall|x: int, y: int|
            0 <= x < TABLE_SIZE && 0 <= y < TABLE_SIZE ==> #[trigger] self.cell(x, y) != 0
    }

    /// `with_cell` changes the addressed cell and no other.
    pub proof fn lemma_with_cell(&self, x: int, y: int, value: u8)
        requires
            0 <= x < TABLE_SIZE,
            0 <= y < TABLE_SIZE,
        ensures
            forall|i: int, j: int|
                0 <= i < TABLE_SIZE && 0 <= j < TABLE_SIZE ==> #[trigger] self.with_cell(
                    x,
                    y,
                    value,
                ).cell(i, j) == if i == x && j == y {
                    value
                } else {
                    self.cell(i, j)
                },
    {
        broadcast use vstd::array::axiom_spec_array_update;

    }

    /// Two tables with the same cells are the same table.
    pub proof fn lemma_cells_determine(a: Table, b: Table)
        requires
            forall|x: int, y: int|
                0 <= x < TABLE_SIZE && 0 <= y < TABLE_SIZE ==> a.cell(x, y) == b.cell(x, y),
        ensures
            a == b,
    {
        broadcast use vstd::array::axiom_array_ext_equal;

        assert forall|y: int| 0 <= y < TABLE_SIZE implies a.fields[y] == b.fields[y] by {
            assert forall|x: int| 0 <= x < TABLE_SIZE implies a.fields[y][x] == b.fields[y][x] by {
                assert(a.cell(x, y) == b.cell(x, y));
            }
            assert(a.fields[y] =~= b.fields[y]);
        }
        assert(a.fields =~= b.fields);
    }

    /// The table with every cell empty.
    pub fn new() -> (table: Table)
        ensures
            forall|x: int, y: int|
                0 <= x < TABLE_SIZE && 0 <= y < TABLE_SIZE ==> #[trigger] table.cell(x, y) == 0,
    {
        Table { fields: [[0u8; TABLE_SIZE]; TABLE_SIZE] }
    }

    /// The table that holds `fields[y][x]` in column `x` of row `y`.
    pub fn new_from(fields: [[u8; TABLE_SIZE]; TABLE_SIZE]) -> (table: Table)
        ensures
            forall|x: int, y: int|
                0 <= x < TABLE_SIZE && 0 <= y < TABLE_SIZE ==> #[trigger] table.cell(x, y)
                    == fields[y][x],
    {
        Table { fields }
    }

    /// Whether every cell holds a value other than 0.
    pub fn is_filled(&self) -> (filled: bool)
        ensures
            filled == self.filled(),
    {
        let mut y: usize = 0;
        while y < TABLE_SIZE
            invariant
                y <= TABLE_SIZE,
                forall|i: int, j: int|
                    0 <= i < TABLE_SIZE && 0 <= j < y ==> #[trigger] self.cell(i, j) != 0,
            decreases TABLE_SIZE - y,
        {
            let mut x: usize = 0;
            while x < TABLE_SIZE
                invariant
                    y < TABLE_SIZE,
                    x <= TABLE_SIZE,
                    forall|i: int, j: int|
                        0 <= i < TABLE_SIZE && 0 <= j < y ==> #[trigger] self.cell(i, j) != 0,
                    forall|i: int| 0 <= i < x ==> #[trigger] self.cell(i, y as int) != 0,
                decreases TABLE_SIZE - x,
            {
                if self.fields[y][x] == 0 {
                    assert(self.cell(x as int, y as int) == 0);
                    return false;
                }
                x += 1;
            }
            y += 1;
        }
        true
    }

    /// Checks `point` against the bounds of a table, the column first.
    pub fn check_range(point: &Point) -> (checked: Result<(), CoordinateError>)
        ensures
            match checked {
                Ok(_) => point.range_error(TABLE_SIZE) is None,
                Err(e) => point.range_error(TABLE_SIZE) == Some(e),
            },
    {
        if point.x > 8 {
            return Err(CoordinateError::OutOfRange(Axis::X));
        }
        if point.y > 8 {
            return Err(CoordinateError::OutOfRange(Axis::Y));
        }
        Ok(())
    }
}

impl SquareTable for Table {
    open spec fn spec_dimensions(&self) -> usize {
        TABLE_SIZE
    }

    fn dimensions(&self) -> (side: usize) {
        TABLE_SIZE
    }
}

impl SudokuTable for Table {
    /// The nine points of the 3×3 block that holds `point`, row by row
    /// from the block's top-left point `(x/3*3, y/3*3)`: entry `3*j + i`
    /// lies `j` rows and `i` columns from it.
    open spec fn spec_points_in_zone(&self, point: Point) -> Result<Seq<Point>, CoordinateError> {
        match point.range_error(TABLE_SIZE) {
            Some(e) => Err(e),
            None => Ok(
                Seq::new(
                    9,
                    |k: int|
                        Point {
                            x: (zone_anchor(point.x as int) + k % 3) as usize,
                            y: (zone_anchor(point.y as int) + k / 3) as usize,
                        },
                ),
            ),
        }
    }

    /// The values 1 to 9, ascending.
    open spec fn spec_possible_values(&self) -> Seq<u8> {
        Seq::new(TABLE_SIZE as nat, |i: int| (i + 1) as u8)
    }

    fn points_in_zone(&self, point: &Point) -> (points: Result<Vec<Point>, CoordinateError>) {
        match Table::check_range(point) {
            Err(e) => {
                return Err(e);
            },
            _ => (),
        }
        let x_offset: usize = (point.x / ZONE_SIZE) * ZONE_SIZE;
        let y_offset: usize = (point.y / ZONE_SIZE) * ZONE_SIZE;
        let ghost expected = self.spec_points_in_zone(*point)->Ok_0;
        let mut points: Vec<Point> = Vec::with_capacity(9);
        let mut y: usize = 0;
        while y < ZONE_SIZE
            invariant
                y <= ZONE_SIZE,
                x_offset == zone_anchor(point.x as int),
                y_offset == zone_anchor(point.y as int),
                x_offset <= 6,
                y_offset <= 6,
                expected.len() == 9,
                forall|k: int|
                    0 <= k < 9 ==> #[trigger] expected[k] == (Point {
                        x: (x_offset + k % 3) as usize,
                        y: (y_offset + k / 3) as usize,
                    }),
                points@ == expected.take(3 * y),
            decreases ZONE_SIZE - y,
        {
            let mut x: usize = 0;
            while x < ZONE_SIZE
                invariant
                    y < ZONE_SIZE,
                    x <= ZONE_SIZE,
                    x_offset <= 6,
                    y_offset <= 6,
                    expected.len() == 9,
                    forall|k: int|
                        0 <= k < 9 ==> #[trigger] expected[k] == (Point {
                            x: (x_offset + k % 3) as usize,
                            y: (y_offset + k / 3) as usize,
                        }),
                    points@ == expected.take(3 * y + x),
                decreases ZONE_SIZE - x,
            {
                points.push(Point { x: x_offset + x, y: y_offset + y });
                proof {
                    let k = 3 * y + x;
                    assert(k / 3 == y && k % 3 == x);
                    assert(expected.take(k + 1) =~= expected.take(k).push(expected[k]));
                }
                x += 1;
            }
            y += 1;
        }
        assert(expected.take(9) =~= expected);
        Ok(points)
    }

    fn possible_values(&self) -> (values: Vec<u8>) {
        let mut values: Vec<u8> = Vec::with_capacity(9);
        let mut i: u8 = 0;
        while i < 9
            invariant
                i <= 9,
                values@ == Seq::new(i as nat, |k: int| (k + 1) as u8),
            decreases 9 - i,
        {
            values.push(i + 1);
            assert(values@ =~= Seq::new((i + 1) as nat, |k: int| (k + 1) as u8));
            i += 1;
        }
        values
    }
}

impl Settable for Table {
    open spec fn spec_set_in_point(&self, point: Point, value: u8) -> Result<
        Self,
        CoordinateError,
    > {
        match point.range_error(TABLE_SIZE) {
            Some(e) => Err(e),
            None => Ok(self.with_cell(point.x as int, point.y as int, value)),
        }
    }

    fn set_in_point(&self, point: &Point, value: u8) -> (table: Result<
        Box<Self>,
        CoordinateError,
    >) {
        match Table::check_range(point) {
            Err(e) => {
                return Err(e);
            },
            _ => (),
        }
        let mut fields = self.fields;
        let mut row = fields[point.y];
        row[point.x] = value;
        fields[point.y] = row;
        let table = Table { fields };
        proof {
            self.lemma_with_cell(point.x as int, point.y as int, value);
            Table::lemma_cells_determine(
                table,
                self.with_cell(point.x as int, point.y as int, value),
            );
        }
        Ok(Box::new(table))
    }
}

impl Selectable for Table {
    open spec fn spec_value_in_point(&self, point: Point) -> Result<u8, CoordinateError> {
        match point.range_error(TABLE_SIZE) {
            Some(e) => Err(e),
            None => Ok(self.cell(point.x as int, point.y as int)),
        }
    }

    fn value_in_point(&self, point: &Point) -> (value: Result<u8, CoordinateError>) {
        match Table::check_range(point) {
            Err(e) => {
                return Err(e);
            },
            _ => (),
        }
        Ok(self.fields[point.y][point.x])
    }
}

impl Table {
    /// A write inside the table succeeds and changes the cell it addresses
    /// and no other, whatever the table held before. Since a write hands
    /// out a new table and takes the old one by shared reference, every
    /// read of the old table gives what it gave before.
    pub proof fn lemma_write_changes_one_cell(table: Table, point: Point, value: u8)
        ensures
            point.within(TABLE_SIZE) <==> table.spec_set_in_point(point, value) is Ok,
            table.spec_set_in_point(point, value) matches Ok(written) ==> {
                &&& written.spec_value_in_point(point) === Ok(value)
                &&& forall|other: Point|
                    other != point ==> #[trigger] written.spec_value_in_point(other)
                        == table.spec_value_in_point(other)
            },
    {
        if point.within(TABLE_SIZE) {
            table.lemma_with_cell(point.x as int, point.y as int, value);
            let written = table.with_cell(point.x as int, point.y as int, value);
            assert forall|other: Point| other != point implies written.spec_value_in_point(other)
                == table.spec_value_in_point(other) by {
                if other.within(TABLE_SIZE) {
                    assert(written.cell(other.x as int, other.y as int) == table.cell(
                        other.x as int,
                        other.y as int,
                    ));
                }
            }
        }
    }

    /// A read and a write fail on the same points and with the same error:
    /// on the column where it is 9 or more, else on the row where it is 9
    /// or more. On every other point both succeed.
    pub proof fn lemma_bounds(table: Table, point: Point, value: u8)
        ensures
            point.x >= TABLE_SIZE ==> table.spec_value_in_point(point) === Err(
                CoordinateError::OutOfRange(Axis::X),
            ) && table.spec_set_in_point(point, value) === Err(
                CoordinateError::OutOfRange(Axis::X),
            ),
            point.x < TABLE_SIZE && point.y >= TABLE_SIZE ==> table.spec_value_in_point(point)
                === Err(CoordinateError::OutOfRange(Axis::Y))
                && table.spec_set_in_point(point, value) === Err(
                CoordinateError::OutOfRange(Axis::Y),
            ),
            point.x < TABLE_SIZE && point.y < TABLE_SIZE ==> table.spec_value_in_point(point) is Ok
                && table.spec_set_in_point(point, value) is Ok,
    {
    }

    /// The block of a point inside the table has nine points, no point
    /// twice, and holds exactly the points of the 3×3 square whose top-left
    /// point is `(x/3*3, y/3*3)`.
    pub proof fn lemma_zone_is_square(table: Table, point: Point)
        requires
            point.within(TABLE_SIZE),
        ensures
            table.spec_points_in_zone(point) is Ok,
            table.spec_points_in_zone(point)->Ok_0.len() == 9,
            table.spec_points_in_zone(point)->Ok_0.no_duplicates(),
            forall|q: Point|
                table.spec_points_in_zone(point)->Ok_0.contains(q) <==> {
                    &&& zone_anchor(point.x as int) <= q.x < zone_anchor(point.x as int) + 3
                    &&& zone_anchor(point.y as int) <= q.y < zone_anchor(point.y as int) + 3
                },
    {
        let zone = table.spec_points_in_zone(point)->Ok_0;
        let ax = zone_anchor(point.x as int);
        let ay = zone_anchor(point.y as int);
        assert forall|q: Point|
            ax <= q.x < ax + 3 && ay <= q.y < ay + 3 implies zone.contains(q) by {
            let k = 3 * (q.y - ay) + (q.x - ax);
            assert(k / 3 == q.y - ay && k % 3 == q.x - ax);
            assert(zone[k] == q);
        }
        assert forall|q: Point| zone.contains(q) implies ax <= q.x < ax + 3 && ay <= q.y < ay
            + 3 by {
            let k = choose|k: int| 0 <= k < zone.len() && zone[k] == q;
            assert(0 <= k / 3 < 3 && 0 <= k % 3 < 3);
        }
        assert forall|i: int, j: int|
            0 <= i < zone.len() && 0 <= j < zone.len() && i != j implies zone[i] != zone[j] by {
            assert(i == 3 * (i / 3) + i % 3 && j == 3 * (j / 3) + j % 3);
        }
    }

    /// Two points of the same block have the same block: the block of a
    /// point of a block is that block.
    pub proof fn lemma_zone_shared(table: Table, p: Point, q: Point)
        requires
            p.within(TABLE_SIZE),
            table.spec_points_in_zone(p)->Ok_0.contains(q),
        ensures
            table.spec_points_in_zone(q) == table.spec_points_in_zone(p),
    {
        Table::lemma_zone_is_square(table, p);
        assert(zone_anchor(q.x as int) == zone_anchor(p.x as int));
        assert(zone_anchor(q.y as int) == zone_anchor(p.y as int));
        assert(table.spec_points_in_zone(p)->Ok_0 =~= table.spec_points_in_zone(q)->Ok_0);
    }

    /// A table is filled exactly if no point inside it holds 0.
    pub proof fn lemma_filled_iff_no_empty_point(table: Table)
        ensures
            table.filled() <==> forall|p: Point|
                p.within(TABLE_SIZE) ==> #[trigger] table.spec_value_in_point(p) !== Ok(0),
    {
        if table.filled() {
            assert forall|p: Point| p.within(TABLE_SIZE) implies #[trigger]
                table.spec_value_in_point(p) !== Ok(0) by {
                assert(table.cell(p.x as int, p.y as int) != 0);
            }
        }
        if forall|p: Point|
            p.within(TABLE_SIZE) ==> #[trigger] table.spec_value_in_point(p) !== Ok(0) {
            assert forall|x: int, y: int|
                0 <= x < TABLE_SIZE && 0 <= y < TABLE_SIZE implies #[trigger] table.cell(x, y)
                != 0 by {
                let p = Point { x: x as usize, y: y as usize };
                assert(table.spec_value_in_point(p) !== Ok(0));
            }
        }
    }
}

} // verus!
