use sudoku_solver::point::Axis;
use sudoku_solver::point::CoordinateError;
use sudoku_solver::point::Point;
use sudoku_solver::point_selection::empty_point_search::EmptyPointSearch;
use sudoku_solver::point_selection::empty_point_search::SearchDirection;
use sudoku_solver::point_selection::line_point_selection::LinePointSelection;
use sudoku_solver::point_selection::line_point_selection::SelectionType;
use sudoku_solver::table::Table;

fn with_holes(holes: &[(usize, usize)]) -> Table {
    let mut rows = [[1u8; 9]; 9];
    for (x, y) in holes {
        rows[*y][*x] = 0;
    }
    Table::new_from(rows)
}

#[test]
fn each_scan_order_finds_its_own_first_empty_cell() {
    let s = EmptyPointSearch {};
    let t = with_holes(&[(0, 5), (3, 2), (7, 2), (2, 8), (6, 8)]);
    assert_eq!(s.next_empty(&t, SearchDirection::TopLeftBottom), Some(Point { x: 0, y: 5 }));
    assert_eq!(s.next_empty(&t, SearchDirection::TopLeftRight), Some(Point { x: 3, y: 2 }));
    assert_eq!(s.next_empty(&t, SearchDirection::BottomRightTop), Some(Point { x: 6, y: 8 }));
}

#[test]
fn the_scan_orders_agree_on_whether_a_table_is_complete() {
    let s = EmptyPointSearch {};
    let filled = with_holes(&[]);
    assert_eq!(s.next_empty(&filled, SearchDirection::TopLeftBottom), None);
    assert_eq!(s.next_empty(&filled, SearchDirection::TopLeftRight), None);
    assert_eq!(s.next_empty(&filled, SearchDirection::BottomRightTop), None);
    assert_eq!(filled.is_filled(), true);
    for y in 0..9 {
        for x in 0..9 {
            let t = with_holes(&[(x, y)]);
            let only = Some(Point { x, y });
            assert_eq!(s.next_empty(&t, SearchDirection::TopLeftBottom), only);
            assert_eq!(s.next_empty(&t, SearchDirection::TopLeftRight), only);
            assert_eq!(s.next_empty(&t, SearchDirection::BottomRightTop), only);
            assert_eq!(t.is_filled(), false);
        }
    }
}

#[test]
fn an_empty_table_is_scanned_from_its_corners() {
    let s = EmptyPointSearch {};
    let t = Table::new();
    assert_eq!(s.next_empty(&t, SearchDirection::TopLeftBottom), Some(Point { x: 0, y: 0 }));
    assert_eq!(s.next_empty(&t, SearchDirection::TopLeftRight), Some(Point { x: 0, y: 0 }));
    assert_eq!(s.next_empty(&t, SearchDirection::BottomRightTop), Some(Point { x: 8, y: 8 }));
}

#[test]
fn lines_of_a_table_have_nine_points() {
    let s = LinePointSelection {};
    let t = Table::new();
    let column = s.get_points(&t, &Point { x: 4, y: 7 }, SelectionType::Vertical).unwrap();
    let row = s.get_points(&t, &Point { x: 4, y: 7 }, SelectionType::Horizontal).unwrap();
    assert_eq!(column.len(), 9);
    assert_eq!(row.len(), 9);
    for i in 0..9 {
        assert_eq!(column[i], Point { x: 4, y: i });
        assert_eq!(row[i], Point { x: i, y: 7 });
    }
}

#[test]
fn a_line_through_a_point_on_the_edge_of_the_range_fails() {
    let s = LinePointSelection {};
    let t = Table::new();
    let x = CoordinateError::OutOfRange(Axis::X);
    let y = CoordinateError::OutOfRange(Axis::Y);
    assert_eq!(s.get_points(&t, &Point { x: 9, y: 0 }, SelectionType::Vertical).unwrap_err(), x);
    assert_eq!(s.get_points(&t, &Point { x: 9, y: 9 }, SelectionType::Horizontal).unwrap_err(), x);
    assert_eq!(s.get_points(&t, &Point { x: 0, y: 9 }, SelectionType::Horizontal).unwrap_err(), y);
    assert!(s.get_points(&t, &Point { x: 8, y: 8 }, SelectionType::Vertical).is_ok());
}
