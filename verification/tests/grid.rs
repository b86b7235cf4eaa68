use sudoku_solver::point::Axis;
use sudoku_solver::point::CoordinateError;
use sudoku_solver::point::Point;
use sudoku_solver::table::Table;
use sudoku_solver::table::TABLE_SIZE;
use sudoku_solver::Selectable;
use sudoku_solver::Settable;
use sudoku_solver::SquareTable;
use sudoku_solver::SudokuTable;

fn sample() -> Table {
    Table::new_from([
        [5, 3, 0, 0, 7, 0, 0, 0, 0],
        [6, 0, 0, 1, 9, 5, 0, 0, 0],
        [0, 9, 8, 0, 0, 0, 0, 6, 0],
        [8, 0, 0, 0, 6, 0, 0, 0, 3],
        [4, 0, 0, 8, 0, 3, 0, 0, 1],
        [7, 0, 0, 0, 2, 0, 0, 0, 6],
        [0, 6, 0, 0, 0, 0, 2, 8, 0],
        [0, 0, 0, 4, 1, 9, 0, 0, 5],
        [0, 0, 0, 0, 8, 0, 0, 7, 9],
    ])
}

#[test]
fn new_from_reads_rows_by_y_and_columns_by_x() {
    let t = sample();
    assert_eq!(t.value_in_point(&Point { x: 1, y: 0 }).unwrap(), 3);
    assert_eq!(t.value_in_point(&Point { x: 0, y: 1 }).unwrap(), 6);
    assert_eq!(t.value_in_point(&Point { x: 8, y: 3 }).unwrap(), 3);
    assert_eq!(t.value_in_point(&Point { x: 3, y: 8 }).unwrap(), 0);
    assert_eq!(t.value_in_point(&Point { x: 8, y: 8 }).unwrap(), 9);
}

#[test]
fn a_write_changes_one_cell_of_the_copy_and_none_of_its_source() {
    let t = sample();
    let p = Point { x: 2, y: 0 };
    let written = t.set_in_point(&p, 4).unwrap();
    for y in 0..TABLE_SIZE {
        for x in 0..TABLE_SIZE {
            let q = Point { x, y };
            let before = sample().value_in_point(&q).unwrap();
            assert_eq!(t.value_in_point(&q).unwrap(), before);
            let expected = if q == p { 4 } else { before };
            assert_eq!(written.value_in_point(&q).unwrap(), expected);
        }
    }
}

#[test]
fn a_write_accepts_any_value() {
    let t = sample();
    let p = Point { x: 0, y: 0 };
    assert_eq!(t.set_in_point(&p, 0).unwrap().value_in_point(&p).unwrap(), 0);
    assert_eq!(t.set_in_point(&p, 3).unwrap().value_in_point(&p).unwrap(), 3);
    assert_eq!(t.set_in_point(&p, 255).unwrap().value_in_point(&p).unwrap(), 255);
}

#[test]
fn reads_fail_on_the_column_before_the_row() {
    let t = Table::new();
    let x = CoordinateError::OutOfRange(Axis::X);
    let y = CoordinateError::OutOfRange(Axis::Y);
    assert_eq!(t.value_in_point(&Point { x: 9, y: 0 }).unwrap_err(), x);
    assert_eq!(t.value_in_point(&Point { x: 9, y: 9 }).unwrap_err(), x);
    assert_eq!(t.value_in_point(&Point { x: usize::MAX, y: 3 }).unwrap_err(), x);
    assert_eq!(t.value_in_point(&Point { x: 0, y: 9 }).unwrap_err(), y);
    assert_eq!(t.value_in_point(&Point { x: 8, y: usize::MAX }).unwrap_err(), y);
    assert_eq!(t.value_in_point(&Point { x: 8, y: 8 }), Ok(0));
}

#[test]
fn writes_fail_on_the_column_before_the_row() {
    let t = Table::new();
    let x = CoordinateError::OutOfRange(Axis::X);
    let y = CoordinateError::OutOfRange(Axis::Y);
    assert_eq!(t.set_in_point(&Point { x: 9, y: 0 }, 1).unwrap_err(), x);
    assert_eq!(t.set_in_point(&Point { x: 9, y: 9 }, 1).unwrap_err(), x);
    assert_eq!(t.set_in_point(&Point { x: 0, y: 9 }, 1).unwrap_err(), y);
    assert_eq!(t.set_in_point(&Point { x: 8, y: 10 }, 1).unwrap_err(), y);
    assert!(t.set_in_point(&Point { x: 8, y: 8 }, 1).is_ok());
}

#[test]
fn check_range_accepts_exactly_the_points_of_the_table() {
    assert_eq!(Table::check_range(&Point { x: 0, y: 0 }), Ok(()));
    assert_eq!(Table::check_range(&Point { x: 8, y: 8 }), Ok(()));
    assert_eq!(
        Table::check_range(&Point { x: 9, y: 8 }),
        Err(CoordinateError::OutOfRange(Axis::X))
    );
    assert_eq!(
        Table::check_range(&Point { x: 8, y: 9 }),
        Err(CoordinateError::OutOfRange(Axis::Y))
    );
}

#[test]
fn points_in_zone_fail_outside_the_table() {
    let t = Table::new();
    assert_eq!(
        t.points_in_zone(&Point { x: 9, y: 9 }).unwrap_err(),
        CoordinateError::OutOfRange(Axis::X)
    );
    assert_eq!(
        t.points_in_zone(&Point { x: 3, y: 9 }).unwrap_err(),
        CoordinateError::OutOfRange(Axis::Y)
    );
}

#[test]
fn every_point_of_a_block_has_the_same_block() {
    let t = Table::new();
    for y in 0..TABLE_SIZE {
        for x in 0..TABLE_SIZE {
            let zone = t.points_in_zone(&Point { x, y }).unwrap();
            assert_eq!(zone.len(), 9);
            let anchor = Point { x: x / 3 * 3, y: y / 3 * 3 };
            assert_eq!(zone[0], anchor);
            for (k, q) in zone.iter().enumerate() {
                assert_eq!(*q, Point { x: anchor.x + k % 3, y: anchor.y + k / 3 });
                let again = t.points_in_zone(q).unwrap();
                assert_eq!(again, zone);
            }
            assert!(zone.contains(&Point { x, y }));
        }
    }
}

#[test]
fn blocks_of_different_anchors_share_no_point() {
    let t = Table::new();
    let a = t.points_in_zone(&Point { x: 2, y: 2 }).unwrap();
    let b = t.points_in_zone(&Point { x: 3, y: 2 }).unwrap();
    let c = t.points_in_zone(&Point { x: 2, y: 3 }).unwrap();
    for p in a.iter() {
        assert!(!b.contains(p));
        assert!(!c.contains(p));
    }
}

#[test]
fn is_filled_sees_a_single_empty_cell() {
    let mut rows = [[1u8; 9]; 9];
    assert_eq!(Table::new_from(rows).is_filled(), true);
    rows[8][8] = 0;
    assert_eq!(Table::new_from(rows).is_filled(), false);
    rows[8][8] = 1;
    rows[0][0] = 0;
    assert_eq!(Table::new_from(rows).is_filled(), false);
    rows[0][0] = 1;
    rows[4][7] = 0;
    assert_eq!(Table::new_from(rows).is_filled(), false);
    assert_eq!(Table::new().is_filled(), false);
}

#[test]
fn a_table_of_illegal_values_is_representable() {
    let t = Table::new_from([[7u8; 9]; 9]);
    assert_eq!(t.is_filled(), true);
    assert_eq!(t.value_in_point(&Point { x: 4, y: 4 }).unwrap(), 7);
    assert_eq!(t.dimensions(), 9);
}

#[test]
fn points_compare_by_both_coordinates() {
    assert_eq!(Point { x: 1, y: 2 }, Point { x: 1, y: 2 });
    assert_ne!(Point { x: 1, y: 2 }, Point { x: 2, y: 1 });
    assert_ne!(Point { x: 1, y: 2 }, Point { x: 1, y: 3 });
    assert_ne!(Point { x: 0, y: 2 }, Point { x: 1, y: 2 });
}
