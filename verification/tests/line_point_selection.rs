use sudoku_solver::point::Axis;
use sudoku_solver::point::CoordinateError;
use sudoku_solver::point::Point;
use sudoku_solver::point_selection::line_point_selection::LinePointSelection;
use sudoku_solver::point_selection::line_point_selection::SelectionType;
use sudoku_solver::SquareTable;

struct MockTable {}

impl SquareTable for MockTable {
    fn spec_dimensions(&self) -> usize {
        self.dimensions()
    }

    fn dimensions(&self) -> usize {
        return 4usize;
    }
}

#[test]
fn test_return_horizontal_points() {
    let t = MockTable {};
    let s = LinePointSelection {};

    let y = s.get_points(&t, &Point { x: 1, y: 3 }, SelectionType::Horizontal).unwrap();
    assert_eq!(y.len(), 4);
    assert_eq!(y[0], Point { x: 0, y: 3 });
    assert_eq!(y[1], Point { x: 1, y: 3 });
    assert_eq!(y[2], Point { x: 2, y: 3 });
    assert_eq!(y[3], Point { x: 3, y: 3 });
}

#[test]
fn test_return_vertical_points() {
    let t = MockTable {};
    let s = LinePointSelection {};

    let y = s.get_points(&t, &Point { x: 1, y: 3 }, SelectionType::Vertical).unwrap();
    assert_eq!(y.len(), 4);
    assert_eq!(y[0], Point { x: 1, y: 0 });
    assert_eq!(y[1], Point { x: 1, y: 1 });
    assert_eq!(y[2], Point { x: 1, y: 2 });
    assert_eq!(y[3], Point { x: 1, y: 3 });
}

#[test]
fn test_return_error_if_out_of_boundaries() {
    let t = MockTable {};
    let s = LinePointSelection {};

    let y = s.get_points(&t, &Point { x: 1, y: 5 }, SelectionType::Vertical).unwrap_err();
    assert_eq!(y, CoordinateError::OutOfRange(Axis::Y));

    let x = s.get_points(&t, &Point { x: 5, y: 2 }, SelectionType::Vertical).unwrap_err();
    assert_eq!(x, CoordinateError::OutOfRange(Axis::X));
}
