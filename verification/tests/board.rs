use game_of_life::board::{BoardError, GameBoard};
use game_of_life::point::Point;

fn sorted(cells: Vec<Point>) -> Vec<(i32, i32)> {
    let mut pairs: Vec<(i32, i32)> = cells.iter().map(|p| (p.x, p.y)).collect();
    pairs.sort();
    pairs
}

fn points(pairs: &[(i32, i32)]) -> Vec<Point> {
    pairs.iter().map(|&(x, y)| Point::new(x, y)).collect()
}

#[test]
fn new_board_is_empty_at_generation_zero() {
    let board = GameBoard::new(50, 50).unwrap();
    assert_eq!(board.columns(), 50);
    assert_eq!(board.rows(), 50);
    assert_eq!(board.generation(), 0);
    assert!(board.live_cells().is_empty());
}

#[test]
fn new_keeps_columns_and_rows_apart() {
    let board = GameBoard::new(7, 3).unwrap();
    assert_eq!(board.columns(), 7);
    assert_eq!(board.rows(), 3);
}

#[test]
fn new_accepts_the_smallest_and_the_largest_board() {
    assert!(GameBoard::new(1, 1).is_ok());
    assert!(GameBoard::new(i32::MAX, i32::MAX).is_ok());
}

#[test]
fn new_rejects_zero_columns() {
    assert_eq!(GameBoard::new(0, 5).err(), Some(BoardError::InvalidDimensions));
}

#[test]
fn new_rejects_zero_rows() {
    assert_eq!(GameBoard::new(5, 0).err(), Some(BoardError::InvalidDimensions));
}

#[test]
fn new_rejects_negative_dimensions() {
    assert_eq!(GameBoard::new(-1, 5).err(), Some(BoardError::InvalidDimensions));
    assert_eq!(GameBoard::new(5, -1).err(), Some(BoardError::InvalidDimensions));
    assert_eq!(GameBoard::new(i32::MIN, i32::MIN).err(), Some(BoardError::InvalidDimensions));
}

#[test]
fn point_equality_is_by_both_components() {
    assert_eq!(Point::new(3, 4), Point { x: 3, y: 4 });
    assert_ne!(Point::new(3, 4), Point::new(4, 3));
    assert_ne!(Point::new(3, 4), Point::new(3, 5));
    assert_ne!(Point::new(3, 4), Point::new(2, 4));
}

#[test]
fn seed_makes_cells_alive() {
    let mut board = GameBoard::new(10, 10).unwrap();
    assert_eq!(board.seed(&points(&[(1, 2), (9, 9), (0, 0)])), Ok(()));
    assert!(board.is_alive(Point::new(1, 2)));
    assert!(board.is_alive(Point::new(9, 9)));
    assert!(board.is_alive(Point::new(0, 0)));
    assert!(!board.is_alive(Point::new(2, 1)));
    assert_eq!(sorted(board.live_cells()), vec![(0, 0), (1, 2), (9, 9)]);
}

#[test]
fn seed_leaves_the_generation_alone() {
    let mut board = GameBoard::new(10, 10).unwrap();
    board.seed(&points(&[(1, 2)])).unwrap();
    assert_eq!(board.generation(), 0);
}

#[test]
fn seed_with_nothing_changes_nothing() {
    let mut board = GameBoard::new(10, 10).unwrap();
    assert_eq!(board.seed(&[]), Ok(()));
    assert!(board.live_cells().is_empty());
}

#[test]
fn seed_keeps_each_cell_once() {
    let mut board = GameBoard::new(10, 10).unwrap();
    board.seed(&points(&[(1, 1), (1, 1), (2, 2), (1, 1)])).unwrap();
    assert_eq!(sorted(board.live_cells()), vec![(1, 1), (2, 2)]);
    board.seed(&points(&[(2, 2), (3, 3)])).unwrap();
    assert_eq!(sorted(board.live_cells()), vec![(1, 1), (2, 2), (3, 3)]);
}

#[test]
fn seed_rejects_a_negative_column() {
    let mut board = GameBoard::new(10, 10).unwrap();
    assert_eq!(board.seed(&points(&[(-1, 0)])), Err(BoardError::OutOfBounds));
    assert!(board.live_cells().is_empty());
}

#[test]
fn seed_rejects_a_column_past_the_edge() {
    let mut board = GameBoard::new(10, 10).unwrap();
    assert_eq!(board.seed(&points(&[(10, 0)])), Err(BoardError::OutOfBounds));
    assert!(board.live_cells().is_empty());
}

#[test]
fn seed_rejects_rows_off_the_board() {
    let mut board = GameBoard::new(10, 10).unwrap();
    assert_eq!(board.seed(&points(&[(0, -1)])), Err(BoardError::OutOfBounds));
    assert_eq!(board.seed(&points(&[(0, 10)])), Err(BoardError::OutOfBounds));
    assert!(board.live_cells().is_empty());
}

#[test]
fn seed_is_all_or_nothing() {
    let mut board = GameBoard::new(10, 10).unwrap();
    board.seed(&points(&[(5, 5)])).unwrap();
    assert_eq!(
        board.seed(&points(&[(1, 1), (2, 2), (10, 0), (3, 3)])),
        Err(BoardError::OutOfBounds)
    );
    assert_eq!(sorted(board.live_cells()), vec![(5, 5)]);
    assert!(!board.is_alive(Point::new(1, 1)));
}

#[test]
fn seed_checks_against_columns_for_x_and_rows_for_y() {
    let mut board = GameBoard::new(3, 7).unwrap();
    assert_eq!(board.seed(&points(&[(2, 6)])), Ok(()));
    assert_eq!(board.seed(&points(&[(6, 2)])), Err(BoardError::OutOfBounds));
    assert_eq!(board.seed(&points(&[(3, 0)])), Err(BoardError::OutOfBounds));
    assert_eq!(board.seed(&points(&[(0, 7)])), Err(BoardError::OutOfBounds));
}

#[test]
fn a_coordinate_off_the_board_is_never_alive() {
    let mut board = GameBoard::new(4, 4).unwrap();
    board.seed(&points(&[(0, 0), (3, 3)])).unwrap();
    assert!(!board.is_alive(Point::new(4, 4)));
    assert!(!board.is_alive(Point::new(-1, -1)));
    assert!(!board.is_alive(Point::new(4, 0)));
}

#[test]
fn neighbor_count_counts_all_eight_positions() {
    let mut board = GameBoard::new(10, 10).unwrap();
    board
        .seed(&points(&[(4, 4), (5, 4), (6, 4), (4, 5), (6, 5), (4, 6), (5, 6), (6, 6)]))
        .unwrap();
    assert_eq!(board.neighbor_count(Point::new(5, 5)), 8);
    assert_eq!(board.neighbor_count(Point::new(4, 4)), 2);
    assert_eq!(board.neighbor_count(Point::new(5, 4)), 4);
    assert_eq!(board.neighbor_count(Point::new(3, 3)), 1);
    assert_eq!(board.neighbor_count(Point::new(0, 0)), 0);
}

#[test]
fn neighbor_count_leaves_out_the_cell_itself() {
    let mut board = GameBoard::new(10, 10).unwrap();
    board.seed(&points(&[(5, 5)])).unwrap();
    assert_eq!(board.neighbor_count(Point::new(5, 5)), 0);
    assert_eq!(board.neighbor_count(Point::new(6, 5)), 1);
}

#[test]
fn neighbor_count_tells_x_from_y() {
    let mut board = GameBoard::new(10, 10).unwrap();
    board.seed(&points(&[(2, 7)])).unwrap();
    assert_eq!(board.neighbor_count(Point::new(3, 8)), 1);
    assert_eq!(board.neighbor_count(Point::new(3, 7)), 1);
    assert_eq!(board.neighbor_count(Point::new(8, 3)), 0);
    assert_eq!(board.neighbor_count(Point::new(7, 2)), 0);
    assert_eq!(board.neighbor_count(Point::new(2, 2)), 0);
    assert_eq!(board.neighbor_count(Point::new(7, 7)), 0);
}

#[test]
fn neighbor_count_wraps_around_the_edges() {
    let mut board = GameBoard::new(5, 5).unwrap();
    board.seed(&points(&[(4, 4)])).unwrap();
    assert_eq!(board.neighbor_count(Point::new(0, 0)), 1);
    assert_eq!(board.neighbor_count(Point::new(0, 4)), 1);
    assert_eq!(board.neighbor_count(Point::new(4, 0)), 1);
    assert_eq!(board.neighbor_count(Point::new(3, 3)), 1);
    assert_eq!(board.neighbor_count(Point::new(1, 1)), 0);
    assert_eq!(board.neighbor_count(Point::new(2, 2)), 0);
}

#[test]
fn neighbor_count_of_a_coordinate_off_the_board_wraps_too() {
    let mut board = GameBoard::new(7, 5).unwrap();
    board.seed(&points(&[(6, 3), (4, 1)])).unwrap();
    assert_eq!(board.neighbor_count(Point::new(5, 2)), 2);
    assert_eq!(board.neighbor_count(Point::new(12, 7)), 2);
    assert_eq!(board.neighbor_count(Point::new(-2, -3)), 2);
    assert_eq!(board.neighbor_count(Point::new(i32::MIN, i32::MAX)), 2);
    assert_eq!(board.neighbor_count(Point::new(i32::MAX, i32::MIN)), 0);
}

#[test]
fn on_a_board_of_one_cell_every_position_is_the_cell_itself() {
    let mut board = GameBoard::new(1, 1).unwrap();
    assert_eq!(board.neighbor_count(Point::new(0, 0)), 0);
    board.seed(&points(&[(0, 0)])).unwrap();
    assert_eq!(board.neighbor_count(Point::new(0, 0)), 8);
}

#[test]
fn on_a_single_row_positions_coincide_and_each_counts() {
    let mut board = GameBoard::new(3, 1).unwrap();
    board.seed(&points(&[(0, 0)])).unwrap();
    assert_eq!(board.neighbor_count(Point::new(0, 0)), 2);
    assert_eq!(board.neighbor_count(Point::new(1, 0)), 3);
    assert_eq!(board.neighbor_count(Point::new(2, 0)), 3);
}

#[test]
fn live_cells_is_a_snapshot() {
    let mut board = GameBoard::new(10, 10).unwrap();
    board.seed(&points(&[(1, 1), (2, 2)])).unwrap();
    let mut snapshot = board.live_cells();
    snapshot.push(Point::new(3, 3));
    snapshot[0] = Point::new(9, 9);
    assert_eq!(sorted(board.live_cells()), vec![(1, 1), (2, 2)]);
}

#[test]
fn check_for_newborns_finds_dead_cells_with_three_neighbors() {
    let mut board = GameBoard::new(10, 10).unwrap();
    board.seed(&points(&[(1, 2), (2, 2), (3, 2)])).unwrap();
    assert_eq!(sorted(board.check_for_newborns()), vec![(2, 1), (2, 3)]);
}

#[test]
fn check_for_newborns_wants_exactly_three() {
    let mut board = GameBoard::new(10, 10).unwrap();
    board.seed(&points(&[(4, 4), (6, 4), (4, 6), (6, 6)])).unwrap();
    assert_eq!(board.neighbor_count(Point::new(5, 5)), 4);
    assert!(board.check_for_newborns().is_empty());
}

#[test]
fn check_for_newborns_on_an_empty_board_finds_nothing() {
    let board = GameBoard::new(10, 10).unwrap();
    assert!(board.check_for_newborns().is_empty());
}

#[test]
fn check_for_deaths_finds_lonely_and_crowded_cells() {
    let mut board = GameBoard::new(10, 10).unwrap();
    board.seed(&points(&[(1, 2), (2, 2), (3, 2)])).unwrap();
    assert_eq!(sorted(board.check_for_deaths()), vec![(1, 2), (3, 2)]);

    let mut crowded = GameBoard::new(10, 10).unwrap();
    crowded.seed(&points(&[(5, 5), (4, 4), (6, 4), (4, 6), (6, 6)])).unwrap();
    assert_eq!(
        sorted(crowded.check_for_deaths()),
        vec![(4, 4), (4, 6), (5, 5), (6, 4), (6, 6)]
    );
}

#[test]
fn check_for_deaths_spares_cells_with_two_or_three_neighbors() {
    let mut board = GameBoard::new(10, 10).unwrap();
    board.seed(&points(&[(4, 4), (5, 4), (4, 5), (5, 5)])).unwrap();
    assert!(board.check_for_deaths().is_empty());

    let mut bent = GameBoard::new(10, 10).unwrap();
    bent.seed(&points(&[(4, 4), (5, 4), (4, 5)])).unwrap();
    assert!(bent.check_for_deaths().is_empty());
}

#[test]
fn checks_do_not_change_the_board() {
    let mut board = GameBoard::new(10, 10).unwrap();
    board.seed(&points(&[(1, 2), (2, 2), (3, 2)])).unwrap();
    board.check_for_newborns();
    board.check_for_deaths();
    assert_eq!(sorted(board.live_cells()), vec![(1, 2), (2, 2), (3, 2)]);
    assert_eq!(board.generation(), 0);
}
