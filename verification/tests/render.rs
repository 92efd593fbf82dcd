use game_of_life::board::GameBoard;
use game_of_life::point::Point;

#[test]
fn draw_board_has_a_line_for_each_column() {
    let mut board = GameBoard::new(3, 2).unwrap();
    board.seed(&[Point::new(1, 0), Point::new(2, 1)]).unwrap();
    assert_eq!(
        board.draw_board(),
        vec![" 0  0 ".to_string(), " 1  0 ".to_string(), " 0  1 ".to_string()]
    );
}

#[test]
fn draw_board_of_an_empty_board_is_all_zeros() {
    let board = GameBoard::new(2, 3).unwrap();
    assert_eq!(board.draw_board(), vec![" 0  0  0 ".to_string(), " 0  0  0 ".to_string()]);
}

#[test]
fn draw_line_shows_one_column() {
    let mut board = GameBoard::new(4, 4).unwrap();
    board.seed(&[Point::new(2, 0), Point::new(2, 3), Point::new(1, 1)]).unwrap();
    assert_eq!(board.draw_line(2), " 1  0  0  1 ");
    assert_eq!(board.draw_line(1), " 0  1  0  0 ");
    assert_eq!(board.draw_line(0), " 0  0  0  0 ");
}

#[test]
fn draw_line_off_the_board_is_all_zeros() {
    let mut board = GameBoard::new(2, 2).unwrap();
    board.seed(&[Point::new(0, 0), Point::new(1, 1)]).unwrap();
    assert_eq!(board.draw_line(2), " 0  0 ");
    assert_eq!(board.draw_line(-1), " 0  0 ");
}

#[test]
fn draw_board_follows_the_generations() {
    let mut board = GameBoard::new(5, 5).unwrap();
    board.seed(&[Point::new(1, 2), Point::new(2, 2), Point::new(3, 2)]).unwrap();
    board.step();
    assert_eq!(
        board.draw_board(),
        vec![
            " 0  0  0  0  0 ".to_string(),
            " 0  0  0  0  0 ".to_string(),
            " 0  1  1  1  0 ".to_string(),
            " 0  0  0  0  0 ".to_string(),
            " 0  0  0  0  0 ".to_string(),
        ]
    );
}
