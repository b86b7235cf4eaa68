use sudoku_solver::fillers::simple_filler::SimpleFiller;
use sudoku_solver::fillers::Filler;
use sudoku_solver::point::Point;
use sudoku_solver::point_selection::line_point_selection::LinePointSelection;
use sudoku_solver::point_selection::line_point_selection::SelectionType;
use sudoku_solver::table::Table;
use sudoku_solver::table::TABLE_SIZE;
use sudoku_solver::validators::count_up;
use sudoku_solver::validators::holds;
use sudoku_solver::validators::sequence_validator::SequenceValidator;
use sudoku_solver::validators::unplaced;
use sudoku_solver::validators::vertical_validator;
use sudoku_solver::validators::without;
use sudoku_solver::validators::zone_validator;
use sudoku_solver::validators::TableValidator;
use sudoku_solver::Selectable;
use sudoku_solver::SudokuTable;

fn sample() -> Table {
    Table::new_from([
        [5, 3, 0, 0, 7, 0, 0, 0, 0],
        [6, 0, 0, 1, 9, 5, 0, 0, 0],
        [0, 9, 8, 0, 0, 0, 0, 6, 0],
        [8, 0, 0, 0, 6, 0, 0, 0, 3],
        [4, 0, 0, 8, 0, 3, 0, 0, 1],
        [7, 0, 0, 0, 2, 0, 0, 0, 6],
        [0, 6, 0, 0, 0, 0, 2, 8, 0],
        [0, 0, 0, 4, 1, 9, 0, 0, 5],
        [0, 0, 0, 0, 8, 0, 0, 7, 9],
    ])
}

#[test]
fn candidates_are_the_values_no_region_holds() {
    let filler = SimpleFiller {};
    let t = sample();
    assert_eq!(filler.candidates(&t, &Point { x: 2, y: 0 }), vec![1, 2, 4]);
    assert_eq!(filler.candidates(&t, &Point { x: 4, y: 4 }), vec![5]);
    assert_eq!(filler.candidates(&t, &Point { x: 8, y: 6 }), vec![4]);
    assert_eq!(
        filler.candidates(&Table::new(), &Point { x: 3, y: 3 }),
        vec![1, 2, 3, 4, 5, 6, 7, 8, 9]
    );
}

#[test]
fn no_candidate_stands_in_the_row_the_column_or_the_block() {
    let filler = SimpleFiller {};
    let lines = LinePointSelection {};
    let t = sample();
    for y in 0..TABLE_SIZE {
        for x in 0..TABLE_SIZE {
            let p = Point { x, y };
            let candidates = filler.candidates(&t, &p);
            let mut regions = t.points_in_zone(&p).unwrap();
            regions.extend(lines.get_points(&t, &p, SelectionType::Vertical).unwrap());
            regions.extend(lines.get_points(&t, &p, SelectionType::Horizontal).unwrap());
            assert_eq!(regions.len(), 27);
            let mut expected = Vec::new();
            for v in 1..=9u8 {
                if regions.iter().all(|q| t.value_in_point(q).unwrap() != v) {
                    expected.push(v);
                }
            }
            assert_eq!(candidates, expected);
        }
    }
}

#[test]
fn fill_makes_one_child_for_each_candidate_in_ascending_order() {
    let filler = SimpleFiller {};
    let t = sample();
    let p = Point { x: 2, y: 0 };
    let children = filler.fill::<Table>(&t, &p).unwrap();
    assert_eq!(children.len(), 3);
    let values = [1u8, 2, 4];
    for (child, value) in children.iter().zip(values.iter()) {
        for y in 0..TABLE_SIZE {
            for x in 0..TABLE_SIZE {
                let q = Point { x, y };
                let expected = if q == p { *value } else { t.value_in_point(&q).unwrap() };
                assert_eq!(child.value_in_point(&q).unwrap(), expected);
            }
        }
    }
}

#[test]
fn fill_of_a_cell_without_candidates_is_none() {
    let filler = SimpleFiller {};
    let t = Table::new_from([
        [1, 2, 3, 4, 5, 6, 7, 8, 0],
        [0, 0, 0, 0, 0, 0, 0, 0, 9],
        [0, 0, 0, 0, 0, 0, 0, 0, 0],
        [0, 0, 0, 0, 0, 0, 0, 0, 0],
        [0, 0, 0, 0, 0, 0, 0, 0, 0],
        [0, 0, 0, 0, 0, 0, 0, 0, 0],
        [0, 0, 0, 0, 0, 0, 0, 0, 0],
        [0, 0, 0, 0, 0, 0, 0, 0, 0],
        [0, 0, 0, 0, 0, 0, 0, 0, 0],
    ]);
    let p = Point { x: 8, y: 0 };
    assert_eq!(filler.candidates(&t, &p), Vec::<u8>::new());
    assert!(filler.fill::<Table>(&t, &p).is_none());
}

#[test]
fn fill_of_a_filled_cell_overwrites_it() {
    let filler = SimpleFiller {};
    let t = sample();
    let p = Point { x: 0, y: 0 };
    assert_eq!(filler.candidates(&t, &p), vec![1, 2]);
    let children = filler.fill::<Table>(&t, &p).unwrap();
    assert_eq!(children[0].value_in_point(&p).unwrap(), 1);
    assert_eq!(children[1].value_in_point(&p).unwrap(), 2);
}

#[test]
fn sequence_validator_ignores_empty_cells_and_keeps_the_order() {
    let s = SequenceValidator {};
    let t = sample();
    let row: Vec<Point> = (0..9).map(|x| Point { x, y: 0 }).collect();
    let possible = s.get_possibilities(&t, row.iter().collect());
    assert_eq!(possible, vec![1, 2, 4, 6, 8, 9]);
    assert_eq!(s.get_possibilities(&t, Vec::new()), vec![1, 2, 3, 4, 5, 6, 7, 8, 9]);
    assert_eq!(s.validate(sample(), row.iter().collect()), true);
}

#[test]
fn column_and_block_validators_list_what_is_left() {
    let t = sample();
    let column = vertical_validator::VerticalValidator {};
    assert_eq!(column.get_possibilites(&t, &Point { x: 0, y: 2 }), vec![1, 2, 3, 9]);
    let block = zone_validator::VerticalValidator {};
    assert_eq!(block.get_possibilites(&t, &Point { x: 1, y: 1 }), vec![1, 2, 4, 7]);
    assert_eq!(vertical_validator::VerticalValidator {}.validate(&t), true);
    assert_eq!(zone_validator::VerticalValidator {}.validate(&t), true);
}

#[test]
fn the_helpers_of_the_validators_compute_what_they_name() {
    assert_eq!(count_up(0), Vec::<u8>::new());
    assert_eq!(count_up(4), vec![1, 2, 3, 4]);
    assert_eq!(count_up(255).len(), 255);
    assert_eq!(count_up(255)[254], 255);
    assert_eq!(holds(&vec![3, 1, 2], 2), true);
    assert_eq!(holds(&vec![3, 1, 2], 4), false);
    assert_eq!(holds(&Vec::new(), 0), false);
    assert_eq!(without(&vec![1, 2, 3, 4, 2], &vec![2, 9]), vec![1, 3, 4]);
    assert_eq!(without(&vec![1, 2], &Vec::new()), vec![1, 2]);
    let t = sample();
    let points = vec![Point { x: 0, y: 0 }, Point { x: 1, y: 0 }, Point { x: 2, y: 0 }];
    assert_eq!(unplaced(&t, 6, &points), vec![1, 2, 4, 6]);
}
