use tictactoe::board::CellState;
use tictactoe::session::{GameMode, GameSession};

fn mark_counts(s: &GameSession) -> (usize, usize) {
    let b = s.board();
    let mut x = 0;
    let mut o = 0;
    for row in 0..3 {
        for col in 0..3 {
            match b.get(row, col) {
                CellState::X => x += 1,
                CellState::O => o += 1,
                CellState::Empty => {}
            }
        }
    }
    (x, o)
}

#[test]
fn new_session_starts_open_with_x() {
    let s = GameSession::new(GameMode::PvP, CellState::X);
    assert_eq!(s.current_turn(), CellState::X);
    assert!(!s.is_game_over());
    assert_eq!(s.winner(), None);
    assert_eq!(s.mode(), GameMode::PvP);
}

#[test]
fn scripted_game_ends_with_top_row_win() {
    // X (0,0), O (1,1), X (0,1), O (2,2): still open with no winner;
    // X (0,2) completes the top row
    let mut s = GameSession::new(GameMode::PvP, CellState::X);
    assert!(s.apply_move(0, 0).is_ok());
    assert!(s.apply_move(1, 1).is_ok());
    assert!(s.apply_move(0, 1).is_ok());
    assert!(s.apply_move(2, 2).is_ok());
    assert_eq!(s.winner(), None);
    assert!(!s.is_game_over());
    assert_eq!(s.current_turn(), CellState::X);
    assert!(s.apply_move(0, 2).is_ok());
    assert!(s.is_game_over());
    assert_eq!(s.winner(), Some(CellState::X));
    assert_eq!(s.board().winning_line(), Some([(0, 0), (0, 1), (0, 2)]));
}

#[test]
fn alternating_turns_and_balanced_counts() {
    let mut s = GameSession::new(GameMode::PvP, CellState::X);
    let moves = [(0, 0), (1, 1), (0, 1), (2, 2)];
    for &(row, col) in moves.iter() {
        assert!(s.apply_move(row, col).is_ok());
        let (x, o) = mark_counts(&s);
        assert!(o <= x && x <= o + 1);
    }
    assert_eq!(s.current_turn(), CellState::X);
}

#[test]
fn occupied_cell_is_rejected_without_change() {
    let mut s = GameSession::new(GameMode::PvP, CellState::X);
    assert!(s.apply_move(1, 1).is_ok());
    let turn_before = s.current_turn();
    assert!(s.apply_move(1, 1).is_err());
    assert_eq!(s.current_turn(), turn_before);
    assert_eq!(s.board().get(1, 1), CellState::X);
    assert!(!s.is_game_over());
}

#[test]
fn session_reaches_terminal_draw_on_full_board() {
    // a legal alternating game that fills the board with no line
    let mut s = GameSession::new(GameMode::PvP, CellState::X);
    let moves = [
        (0, 0), // X
        (1, 1), // O
        (2, 2), // X
        (0, 1), // O
        (2, 1), // X
        (2, 0), // O
        (0, 2), // X
        (1, 2), // O
        (1, 0), // X
    ];
    for &(row, col) in moves.iter() {
        assert!(s.apply_move(row, col).is_ok());
    }
    assert!(s.is_game_over());
    assert_eq!(s.winner(), None);
    assert!(s.board().is_full());
}

#[test]
fn terminal_session_rejects_moves_until_reset() {
    let mut s = GameSession::new(GameMode::PvP, CellState::X);
    for &(row, col) in [(0, 0), (1, 0), (0, 1), (1, 1), (0, 2)].iter() {
        assert!(s.apply_move(row, col).is_ok());
    }
    assert!(s.is_game_over());
    assert_eq!(s.winner(), Some(CellState::X));
    assert_eq!(s.current_turn(), CellState::X);
    assert!(s.apply_move(2, 2).is_err());
    s.reset();
    assert!(!s.is_game_over());
    assert_eq!(s.winner(), None);
    assert_eq!(s.current_turn(), CellState::X);
    assert!(!s.board().is_full());
    assert_eq!(s.board().get(0, 0), CellState::Empty);
}

#[test]
fn ai_turn_is_detected_and_played() {
    let mut s = GameSession::new(GameMode::PvAI, CellState::X);
    assert!(!s.is_ai_turn());
    assert!(s.apply_move(0, 0).is_ok());
    assert!(s.is_ai_turn());
    s.ai_move();
    // the engine answers the corner opening in the center
    assert_eq!(s.board().get(1, 1), CellState::O);
    assert_eq!(s.current_turn(), CellState::X);
    assert!(!s.is_ai_turn());
}

#[test]
fn ai_as_x_never_loses_a_full_ai_game() {
    // the engine moves for both marks through the session until the
    // match ends: it must be a draw
    let mut s = GameSession::new(GameMode::PvAI, CellState::X);
    // the human mark never moves; flip it each ply so that every turn
    // counts as the engine's
    while !s.is_game_over() {
        let engine_mark = s.current_turn();
        let human = if engine_mark == CellState::X { CellState::O } else { CellState::X };
        s.set_player_symbol(human);
        assert!(s.is_ai_turn());
        s.ai_move();
    }
    assert_eq!(s.winner(), None);
    assert!(s.board().is_full());
}

#[test]
fn set_player_symbol_changes_only_the_human_mark() {
    let mut s = GameSession::new(GameMode::PvAI, CellState::X);
    s.set_player_symbol(CellState::O);
    assert_eq!(s.player_symbol(), CellState::O);
    assert_eq!(s.current_turn(), CellState::X);
    assert!(s.is_ai_turn());
}
