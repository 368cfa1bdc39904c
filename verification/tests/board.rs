use tictactoe::board::{Board, CellState};

fn place_all(board: &mut Board, moves: &[(usize, usize, CellState)]) {
    for &(row, col, mark) in moves {
        assert!(board.place(row, col, mark).is_ok());
    }
}

#[test]
fn new_board_is_empty() {
    let b = Board::new();
    for row in 0..3 {
        for col in 0..3 {
            assert_eq!(b.get(row, col), CellState::Empty);
        }
    }
    assert_eq!(b.winner(), None);
    assert!(!b.is_full());
    assert!(!b.is_terminal());
    assert_eq!(b.legal_moves().len(), 9);
}

#[test]
fn place_rejects_occupied_cell() {
    let mut b = Board::new();
    assert!(b.place(0, 0, CellState::X).is_ok());
    assert!(b.place(0, 0, CellState::O).is_err());
    assert_eq!(b.get(0, 0), CellState::X);
}

#[test]
fn set_cell_ignores_occupied_cell() {
    let mut b = Board::new();
    b.set_cell(2, 1, CellState::O);
    assert_eq!(b.get(2, 1), CellState::O);
    b.set_cell(2, 1, CellState::X);
    assert_eq!(b.get(2, 1), CellState::O);
}

#[test]
fn winner_none_without_three_in_a_row() {
    let mut b = Board::new();
    place_all(
        &mut b,
        &[
            (0, 0, CellState::X),
            (1, 1, CellState::O),
            (0, 1, CellState::X),
            (2, 2, CellState::O),
        ],
    );
    assert_eq!(b.winner(), None);
    assert_eq!(b.winning_line(), None);
    assert!(!b.is_terminal());
}

#[test]
fn winner_on_completed_row() {
    // the opening of the scripted game: X plays (0,0), O (1,1),
    // X (0,1), O (2,2), and X completes the top row at (0,2)
    let mut b = Board::new();
    place_all(
        &mut b,
        &[
            (0, 0, CellState::X),
            (1, 1, CellState::O),
            (0, 1, CellState::X),
            (2, 2, CellState::O),
            (0, 2, CellState::X),
        ],
    );
    assert_eq!(b.winner(), Some(CellState::X));
    assert_eq!(b.winning_line(), Some([(0, 0), (0, 1), (0, 2)]));
    assert!(b.is_terminal());
    assert!(!b.is_full());
}

#[test]
fn winner_on_completed_column() {
    let mut b = Board::new();
    place_all(
        &mut b,
        &[
            (0, 1, CellState::O),
            (1, 1, CellState::O),
            (2, 1, CellState::O),
        ],
    );
    assert_eq!(b.winner(), Some(CellState::O));
    assert_eq!(b.winning_line(), Some([(0, 1), (1, 1), (2, 1)]));
}

#[test]
fn winner_on_main_diagonal() {
    let mut b = Board::new();
    place_all(
        &mut b,
        &[
            (0, 0, CellState::X),
            (1, 1, CellState::X),
            (2, 2, CellState::X),
        ],
    );
    assert_eq!(b.winner(), Some(CellState::X));
    assert_eq!(b.winning_line(), Some([(0, 0), (1, 1), (2, 2)]));
}

#[test]
fn winner_on_anti_diagonal() {
    let mut b = Board::new();
    place_all(
        &mut b,
        &[
            (0, 2, CellState::O),
            (1, 1, CellState::O),
            (2, 0, CellState::O),
        ],
    );
    assert_eq!(b.winner(), Some(CellState::O));
    assert_eq!(b.winning_line(), Some([(0, 2), (1, 1), (2, 0)]));
}

#[test]
fn full_board_without_line_is_a_draw() {
    // row-major marks X,O,X / O,X,O / O,X,O: full, no line complete
    let mut b = Board::new();
    place_all(
        &mut b,
        &[
            (0, 0, CellState::X),
            (0, 1, CellState::O),
            (0, 2, CellState::X),
            (1, 0, CellState::O),
            (1, 1, CellState::X),
            (1, 2, CellState::O),
            (2, 0, CellState::O),
            (2, 1, CellState::X),
            (2, 2, CellState::O),
        ],
    );
    assert_eq!(b.winner(), None);
    assert!(b.is_full());
    assert!(b.is_terminal());
    assert_eq!(b.legal_moves().len(), 0);
}

#[test]
fn reset_clears_everything() {
    let mut b = Board::new();
    place_all(
        &mut b,
        &[
            (0, 0, CellState::X),
            (1, 1, CellState::O),
            (2, 2, CellState::X),
        ],
    );
    b.reset();
    assert!(!b.is_full());
    assert_eq!(b.winner(), None);
    for row in 0..3 {
        for col in 0..3 {
            assert_eq!(b.get(row, col), CellState::Empty);
        }
    }
}

#[test]
fn legal_moves_in_row_major_order() {
    let mut b = Board::new();
    place_all(
        &mut b,
        &[
            (0, 0, CellState::X),
            (1, 1, CellState::O),
            (2, 2, CellState::X),
        ],
    );
    let moves = b.legal_moves();
    assert_eq!(
        moves,
        vec![(0, 1), (0, 2), (1, 0), (1, 2), (2, 0), (2, 1)]
    );
}

#[test]
fn double_line_reports_first_in_scan_order() {
    // (0,0) completes both the top row and the left column for X;
    // the row comes first in the fixed scan order
    let mut b = Board::new();
    place_all(
        &mut b,
        &[
            (0, 1, CellState::X),
            (0, 2, CellState::X),
            (1, 0, CellState::X),
            (2, 0, CellState::X),
            (0, 0, CellState::X),
        ],
    );
    assert_eq!(b.winner(), Some(CellState::X));
    assert_eq!(b.winning_line(), Some([(0, 0), (0, 1), (0, 2)]));
}

#[test]
fn cell_reads_flat_index() {
    let mut b = Board::new();
    assert!(b.place(1, 2, CellState::X).is_ok());
    assert_eq!(b.cell(5), CellState::X);
    assert_eq!(b.cell(0), CellState::Empty);
}
