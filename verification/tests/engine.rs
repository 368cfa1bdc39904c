use tictactoe::board::{Board, CellState};
use tictactoe::engine::find_best_move;

fn place_all(board: &mut Board, moves: &[(usize, usize, CellState)]) {
    for &(row, col, mark) in moves {
        assert!(board.place(row, col, mark).is_ok());
    }
}

#[test]
fn blocks_opponent_threat() {
    // X holds (0,0) and (0,1); O must block at (0,2)
    let mut b = Board::new();
    place_all(&mut b, &[(0, 0, CellState::X), (0, 1, CellState::X)]);
    assert_eq!(find_best_move(&b, CellState::O), Some((0, 2)));
}

#[test]
fn takes_immediate_win() {
    // X can complete the top row at (0,2); it takes the win even
    // though O also threatens the middle row
    let mut b = Board::new();
    place_all(
        &mut b,
        &[
            (0, 0, CellState::X),
            (1, 0, CellState::O),
            (0, 1, CellState::X),
            (1, 1, CellState::O),
        ],
    );
    assert_eq!(find_best_move(&b, CellState::X), Some((0, 2)));
}

#[test]
fn prefers_win_over_block() {
    // O can win at (1, 2) and must not spend the move blocking X
    let mut b = Board::new();
    place_all(
        &mut b,
        &[
            (0, 0, CellState::X),
            (1, 0, CellState::O),
            (0, 1, CellState::X),
            (1, 1, CellState::O),
            (2, 2, CellState::X),
        ],
    );
    assert_eq!(find_best_move(&b, CellState::O), Some((1, 2)));
}

#[test]
fn none_exactly_on_full_board() {
    let mut b = Board::new();
    place_all(
        &mut b,
        &[
            (0, 0, CellState::X),
            (0, 1, CellState::O),
            (0, 2, CellState::X),
            (1, 0, CellState::O),
            (1, 1, CellState::X),
            (1, 2, CellState::O),
            (2, 0, CellState::O),
            (2, 1, CellState::X),
            (2, 2, CellState::O),
        ],
    );
    assert_eq!(find_best_move(&b, CellState::X), None);
    assert_eq!(find_best_move(&b, CellState::O), None);
}

#[test]
fn decided_board_still_yields_first_empty_cell() {
    // with the game already decided every candidate scores alike, so
    // the row-major tie-break returns the first empty cell
    let mut b = Board::new();
    place_all(
        &mut b,
        &[
            (0, 0, CellState::X),
            (1, 1, CellState::O),
            (0, 1, CellState::X),
            (2, 2, CellState::O),
            (0, 2, CellState::X),
        ],
    );
    assert_eq!(b.winner(), Some(CellState::X));
    assert_eq!(find_best_move(&b, CellState::O), Some((1, 0)));
}

#[test]
fn first_move_is_deterministic() {
    // on the empty board every cell leads to a draw under optimal
    // play, so the row-major tie-break picks (0,0)
    let b = Board::new();
    assert_eq!(find_best_move(&b, CellState::X), Some((0, 0)));
}

#[test]
fn responds_to_corner_with_center() {
    // only the center holds the draw against a corner opening
    let mut b = Board::new();
    place_all(&mut b, &[(0, 0, CellState::X)]);
    assert_eq!(find_best_move(&b, CellState::O), Some((1, 1)));
}

#[test]
fn self_play_from_empty_board_draws() {
    // both sides playing the engine's move from the empty board must
    // end in a draw: the engine never loses to itself
    let mut b = Board::new();
    let mut turn = CellState::X;
    let mut plies = 0;
    while !b.is_terminal() {
        let (row, col) = find_best_move(&b, turn).expect("open board must offer a move");
        assert!(b.place(row, col, turn).is_ok());
        turn = if turn == CellState::X { CellState::O } else { CellState::X };
        plies += 1;
        assert!(plies <= 9);
    }
    assert_eq!(b.winner(), None);
    assert!(b.is_full());
}

#[test]
fn engine_never_loses_to_every_first_reply() {
    // the engine as O against each possible X opening, X then also
    // playing perfectly: every such game is a draw; a loss would
    // show as Some(X)
    for row in 0..3 {
        for col in 0..3 {
            let mut b = Board::new();
            assert!(b.place(row, col, CellState::X).is_ok());
            let mut turn = CellState::O;
            while !b.is_terminal() {
                let (r, c) = find_best_move(&b, turn).expect("open board must offer a move");
                assert!(b.place(r, c, turn).is_ok());
                turn = if turn == CellState::X { CellState::O } else { CellState::X };
            }
            assert_eq!(b.winner(), None, "game starting at ({row},{col}) must draw");
        }
    }
}
