use tictactoe::lines::winning_mark;
use tictactoe::{Board, Mark};

#[test]
fn lib_board_set() {
    let mut board = Board::new(3);

    board.set(0, 1, Mark::O);
    board.set(0, 1, Mark::Empty);
    board.set(0, 2, Mark::X);

    assert_eq!(Some(Mark::Empty), board.get(0, 0));
    assert_eq!(Some(Mark::Empty), board.get(0, 1));
    assert_eq!(Some(Mark::X), board.get(0, 2));
    assert_eq!(Some(Mark::Empty), board.get(1, 0));
    assert_eq!(Some(Mark::Empty), board.get(1, 1));
    assert_eq!(Some(Mark::Empty), board.get(1, 2));
    assert_eq!(Some(Mark::Empty), board.get(2, 0));
    assert_eq!(Some(Mark::Empty), board.get(2, 1));
    assert_eq!(Some(Mark::Empty), board.get(2, 2));
}

#[test]
fn board_winner() {
    let mut board = Board::new(3);

    board.set(2, 0, Mark::O);
    board.set(1, 1, Mark::O);
    assert_eq!(None, board.winner());
    board.set(0, 2, Mark::O);
    assert_eq!(Some(Mark::O), board.winner());
}

fn all_cells(board: &Board, size: i32) -> Vec<Option<Mark>> {
    let mut out = Vec::new();
    for r in 0..size {
        for c in 0..size {
            out.push(board.get(r, c));
        }
    }
    out
}

#[test]
fn new_board_is_empty() {
    for size in 0..6 {
        let board = Board::new(size);
        for r in 0..size as i32 {
            for c in 0..size as i32 {
                assert_eq!(Some(Mark::Empty), board.get(r, c));
            }
        }
    }
}

#[test]
fn get_off_board_is_none() {
    let board = Board::new(3);
    assert_eq!(None, board.get(-1, 0));
    assert_eq!(None, board.get(0, -1));
    assert_eq!(None, board.get(3, 0));
    assert_eq!(None, board.get(0, 3));
    assert_eq!(None, board.get(i32::MIN, i32::MAX));
    assert_eq!(None, Board::new(0).get(0, 0));
}

#[test]
fn set_off_board_fails_and_changes_nothing() {
    let mut board = Board::new(3);
    assert!(board.set(1, 1, Mark::X));
    let before = all_cells(&board, 3);
    assert!(!board.set(3, 0, Mark::O));
    assert!(!board.set(0, 3, Mark::O));
    assert!(!board.set(usize::MAX, usize::MAX, Mark::O));
    assert_eq!(before, all_cells(&board, 3));
    assert!(!Board::new(0).set(0, 0, Mark::X));
}

#[test]
fn set_twice_same_as_once() {
    let mut once = Board::new(3);
    let mut twice = Board::new(3);
    assert!(once.set(2, 1, Mark::X));
    assert!(twice.set(2, 1, Mark::X));
    assert!(twice.set(2, 1, Mark::X));
    assert_eq!(all_cells(&once, 3), all_cells(&twice, 3));
}

#[test]
fn set_then_get_round_trip() {
    let mut board = Board::new(4);
    for (r, c, m) in [(0, 0, Mark::X), (3, 3, Mark::O), (1, 2, Mark::X), (1, 2, Mark::Empty)] {
        assert!(board.set(r, c, m));
        assert_eq!(Some(m), board.get(r as i32, c as i32));
    }
}

#[test]
fn full_board_without_line_has_no_winner() {
    let mut board = Board::new(3);
    let marks = [
        [Mark::X, Mark::O, Mark::X],
        [Mark::X, Mark::O, Mark::O],
        [Mark::O, Mark::X, Mark::X],
    ];
    for r in 0..3 {
        for c in 0..3 {
            assert!(board.set(r, c, marks[r][c]));
        }
    }
    assert_eq!(None, board.winner());
    assert_eq!(None, Board::new(3).winner());
}

#[test]
fn row_win() {
    let mut board = Board::new(3);
    board.set(0, 0, Mark::X);
    board.set(0, 1, Mark::X);
    board.set(0, 2, Mark::X);
    assert_eq!(Some(Mark::X), board.winner());
}

#[test]
fn column_win() {
    let mut board = Board::new(3);
    board.set(0, 2, Mark::O);
    board.set(1, 2, Mark::O);
    board.set(2, 2, Mark::O);
    assert_eq!(Some(Mark::O), board.winner());
}

#[test]
fn diagonal_win() {
    let mut board = Board::new(3);
    board.set(0, 0, Mark::X);
    board.set(1, 1, Mark::X);
    board.set(2, 2, Mark::X);
    assert_eq!(Some(Mark::X), board.winner());
}

#[test]
fn anti_diagonal_win() {
    let mut board = Board::new(3);
    board.set(0, 2, Mark::O);
    board.set(1, 1, Mark::O);
    board.set(2, 0, Mark::O);
    assert_eq!(Some(Mark::O), board.winner());
}

#[test]
fn last_row_win_on_larger_board() {
    let mut board = Board::new(5);
    for c in 0..5 {
        board.set(4, c, Mark::O);
    }
    assert_eq!(Some(Mark::O), board.winner());
    board.set(4, 3, Mark::X);
    assert_eq!(None, board.winner());
}

#[test]
fn partial_lines_never_win() {
    let mut board = Board::new(3);
    board.set(0, 0, Mark::X);
    board.set(0, 1, Mark::X);
    assert_eq!(None, board.winner());
    board.set(0, 2, Mark::O);
    assert_eq!(None, board.winner());
    let mut board = Board::new(3);
    board.set(1, 1, Mark::O);
    board.set(2, 2, Mark::O);
    board.set(0, 0, Mark::X);
    assert_eq!(None, board.winner());
    assert_eq!(None, winning_mark(&[Mark::X, Mark::X, Mark::Empty]));
    assert_eq!(None, winning_mark(&[Mark::O, Mark::X, Mark::O]));
}

#[test]
fn full_line_of_empty_never_wins() {
    assert_eq!(None, winning_mark(&[Mark::Empty, Mark::Empty, Mark::Empty]));
    assert_eq!(None, winning_mark(&[]));
    assert_eq!(Some(Mark::X), winning_mark(&[Mark::X, Mark::X, Mark::X]));
}

#[test]
fn first_line_found_wins() {
    let mut board = Board::new(3);
    for c in 0..3 {
        board.set(2, c, Mark::X);
    }
    for r in 0..3 {
        board.set(r, 0, Mark::O);
    }
    // The column from (0, 0) comes before the row from (2, 0).
    assert_eq!(Some(Mark::O), board.winner());
}

#[test]
fn tiny_boards() {
    assert_eq!(None, Board::new(0).winner());
    assert!(Board::new(0).slices().is_empty());
    let mut board = Board::new(1);
    assert_eq!(None, board.winner());
    board.set(0, 0, Mark::X);
    assert_eq!(Some(Mark::X), board.winner());
    assert_eq!(4, board.slices().len());
}

#[test]
fn slices_in_order() {
    let mut board = Board::new(3);
    board.set(0, 0, Mark::X);
    board.set(0, 2, Mark::O);
    board.set(2, 1, Mark::X);
    let e = Mark::Empty;
    let expected = vec![
        vec![Mark::X, e, Mark::O],
        vec![Mark::X, e, e],
        vec![Mark::X, e, e],
        vec![e, e, Mark::X],
        vec![Mark::O, e, e],
        vec![Mark::O, e, e],
        vec![e, e, e],
        vec![e, Mark::X, e],
    ];
    assert_eq!(expected, board.slices());
    assert_eq!(2 * 5 + 2, Board::new(5).slices().len());
}
