//! The game session: turn order, the terminal flag and recorded
//! winner, the play mode, and the transitions of a match. A session
//! is a small state machine: while the game is open an accepted move
//! mutates the board and either ends the game or passes the turn;
//! once terminal, only a reset leads anywhere.

use vstd::prelude::*;

use crate::board::{
    Board, CellState, InvalidMove, cell_index, count_of, empty_board, is_full_spec,
    lemma_board_view_len, lemma_count_update, lemma_reset_board_state, winner_spec,
};
use crate::engine::{best_move_spec, find_best_move, opponent};

verus! {

broadcast use lemma_board_view_len;

/// Who plays: two humans, or a human against the decision engine.
#[derive(Clone, Copy, PartialEq, Eq, Structural, Debug)]
pub enum GameMode {
    PvP,
    PvAI,
}

/// One running match: the board, whose turn it is, whether and how it
/// ended, the mode, and which mark the human controls in `PvAI` mode.
pub struct GameSession {
    board: Board,
    current_turn: CellState,
    game_over: bool,
    winner: Option<CellState>,
    mode: GameMode,
    player_symbol: CellState,
}

impl GameSession {
    /// The cells of the session's board.
    pub closed spec fn spec_board(self) -> Seq<CellState> {
        self.board@
    }

    /// The mark that moves next (or moved last, once terminal).
    pub closed spec fn turn(self) -> CellState {
        self.current_turn
    }

    /// Whether the match has ended.
    pub closed spec fn over(self) -> bool {
        self.game_over
    }

    /// The recorded winner; `None` means a draw when the match is over.
    pub closed spec fn winner_of(self) -> Option<CellState> {
        self.winner
    }

    /// The play mode the session was entered with.
    pub closed spec fn spec_mode(self) -> GameMode {
        self.mode
    }

    /// The mark the human controls in `PvAI` mode.
    pub closed spec fn human(self) -> CellState {
        self.player_symbol
    }

    /// Well-formedness: the session's derived fields agree with the
    /// board, and the mark tallies match the alternation of turns
    /// with `X` moving first.
    pub open spec fn wf(self) -> bool {
        &&& self.spec_board().len() == 9
        &&& self.turn() != CellState::Empty
        &&& self.human() != CellState::Empty
        &&& self.winner_of() == winner_spec(self.spec_board())
        &&& self.over() == (winner_spec(self.spec_board()) is Some || is_full_spec(
            self.spec_board(),
        ))
        &&& if self.over() {
            if self.turn() == CellState::X {
                count_of(self.spec_board(), CellState::X) == count_of(
                    self.spec_board(),
                    CellState::O,
                ) + 1
            } else {
                count_of(self.spec_board(), CellState::X) == count_of(
                    self.spec_board(),
                    CellState::O,
                )
            }
        } else {
            if self.turn() == CellState::X {
                count_of(self.spec_board(), CellState::X) == count_of(
                    self.spec_board(),
                    CellState::O,
                )
            } else {
                count_of(self.spec_board(), CellState::X) == count_of(
                    self.spec_board(),
                    CellState::O,
                ) + 1
            }
        }
    }

    /// A fresh session: empty board, `X` to move, match open.
    pub fn new(mode: GameMode, player_symbol: CellState) -> (s: GameSession)
        requires
            player_symbol != CellState::Empty,
        ensures
            s.wf(),
            s.spec_board() == empty_board(),
            s.turn() == CellState::X,
            !s.over(),
            s.winner_of() is None,
            s.spec_mode() == mode,
            s.human() == player_symbol,
    {
        let board = Board::new();
        let s = GameSession {
            board,
            current_turn: CellState::X,
            game_over: false,
            winner: None,
            mode,
            player_symbol,
        };
        proof {
            lemma_reset_board_state(empty_board());
            lemma_counts_empty_board(CellState::X);
            lemma_counts_empty_board(CellState::O);
        }
        s
    }

    /// Applies the move of the mark whose turn it is at (row, col).
    /// The move is rejected, with the session unchanged, when the
    /// match is over or the cell is occupied. An accepted move marks
    /// the cell; it then either ends the match — recording the winner,
    /// or no winner for a draw on a full board — or passes the turn.
    pub fn apply_move(&mut self, row: usize, col: usize) -> (r: Result<(), InvalidMove>)
        requires
            old(self).wf(),
            row < 3,
            col < 3,
        ensures
            final(self).wf(),
            (old(self).over() || old(self).spec_board()[cell_index((row, col))]
                != CellState::Empty) ==> {
                &&& r is Err
                &&& *final(self) == *old(self)
            },
            (!old(self).over() && old(self).spec_board()[cell_index((row, col))]
                == CellState::Empty) ==> {
                &&& r is Ok
                &&& final(self).spec_board() == old(self).spec_board().update(
                    cell_index((row, col)),
                    old(self).turn(),
                )
                &&& final(self).winner_of() == winner_spec(final(self).spec_board())
                &&& final(self).over() == (winner_spec(final(self).spec_board()) is Some
                    || is_full_spec(final(self).spec_board()))
                &&& (!final(self).over() ==> final(self).turn() == opponent(old(self).turn()))
                &&& (final(self).over() ==> final(self).turn() == old(self).turn())
            },
            final(self).spec_mode() == old(self).spec_mode(),
            final(self).human() == old(self).human(),
    {
        if self.game_over {
            return Err(InvalidMove);
        }
        let turn = self.current_turn;
        match self.board.place(row, col, turn) {
            Err(e) => Err(e),
            Ok(()) => {
                proof {
                    lemma_count_update(
                        old(self).spec_board(),
                        cell_index((row, col)),
                        turn,
                        CellState::X,
                    );
                    lemma_count_update(
                        old(self).spec_board(),
                        cell_index((row, col)),
                        turn,
                        CellState::O,
                    );
                }
                let w = self.board.winner();
                self.winner = w;
                if w.is_some() {
                    self.game_over = true;
                } else if self.board.is_full() {
                    self.game_over = true;
                } else {
                    self.current_turn = if turn == CellState::X {
                        CellState::O
                    } else {
                        CellState::X
                    };
                }
                Ok(())
            },
        }
    }

    /// Lets the decision engine move for the mark whose turn it is.
    /// The match being open guarantees the engine finds a move; it is
    /// then applied exactly like an accepted human move.
    pub fn ai_move(&mut self)
        requires
            old(self).wf(),
            !old(self).over(),
            old(self).spec_mode() == GameMode::PvAI,
            old(self).turn() != old(self).human(),
        ensures
            final(self).wf(),
            best_move_spec(old(self).spec_board(), old(self).turn()) matches Some(rc) && {
                &&& final(self).spec_board() == old(self).spec_board().update(
                    cell_index(rc),
                    old(self).turn(),
                )
                &&& final(self).winner_of() == winner_spec(final(self).spec_board())
                &&& final(self).over() == (winner_spec(final(self).spec_board()) is Some
                    || is_full_spec(final(self).spec_board()))
                &&& (!final(self).over() ==> final(self).turn() == opponent(old(self).turn()))
                &&& (final(self).over() ==> final(self).turn() == old(self).turn())
            },
            final(self).spec_mode() == old(self).spec_mode(),
            final(self).human() == old(self).human(),
    {
        let mv = find_best_move(&self.board, self.current_turn);
        match mv {
            Some((row, col)) => {
                let _ = self.apply_move(row, col);
            },
            None => {
                // an open match always has an empty cell
                proof {
                    assert(false);
                }
            },
        }
    }

    /// Clears the board and returns to the initial state: `X` to
    /// move, match open, mode and human mark kept.
    pub fn reset(&mut self)
        requires
            old(self).human() != CellState::Empty,
        ensures
            final(self).wf(),
            final(self).spec_board() == empty_board(),
            final(self).turn() == CellState::X,
            !final(self).over(),
            final(self).winner_of() is None,
            final(self).spec_mode() == old(self).spec_mode(),
            final(self).human() == old(self).human(),
    {
        self.board.reset();
        self.current_turn = CellState::X;
        self.game_over = false;
        self.winner = None;
        proof {
            lemma_reset_board_state(empty_board());
            lemma_counts_empty_board(CellState::X);
            lemma_counts_empty_board(CellState::O);
        }
    }

    /// The mark that moves next (or moved last, once terminal).
    pub fn current_turn(&self) -> (r: CellState)
        ensures
            r == self.turn(),
    {
        self.current_turn
    }

    /// Whether the match has ended.
    pub fn is_game_over(&self) -> (r: bool)
        ensures
            r == self.over(),
    {
        self.game_over
    }

    /// The recorded winner; `None` on an open match and on a draw.
    pub fn winner(&self) -> (r: Option<CellState>)
        ensures
            r == self.winner_of(),
    {
        self.winner
    }

    /// The play mode the session was entered with.
    pub fn mode(&self) -> (r: GameMode)
        ensures
            r == self.spec_mode(),
    {
        self.mode
    }

    /// The mark the human controls in `PvAI` mode.
    pub fn player_symbol(&self) -> (r: CellState)
        ensures
            r == self.human(),
    {
        self.player_symbol
    }

    /// A copy of the board, for rendering and queries.
    pub fn board(&self) -> (b: Board)
        ensures
            b@ == self.spec_board(),
    {
        self.board
    }

    /// True when the decision engine is to move: an open `PvAI` match
    /// with the non-human mark at turn.
    pub fn is_ai_turn(&self) -> (r: bool)
        ensures
            r == (self.spec_mode() == GameMode::PvAI && !self.over() && self.turn()
                != self.human()),
    {
        self.mode == GameMode::PvAI && !self.game_over && self.current_turn != self.player_symbol
    }

    /// Records which mark the human controls in `PvAI` mode.
    pub fn set_player_symbol(&mut self, symbol: CellState)
        requires
            old(self).wf(),
            symbol != CellState::Empty,
        ensures
            final(self).wf(),
            final(self).human() == symbol,
            final(self).spec_board() == old(self).spec_board(),
            final(self).turn() == old(self).turn(),
            final(self).over() == old(self).over(),
            final(self).winner_of() == old(self).winner_of(),
            final(self).spec_mode() == old(self).spec_mode(),
    {
        self.player_symbol = symbol;
    }
}

/// On the empty board no mark has been placed.
proof fn lemma_counts_empty_board(m: CellState)
    requires
        m != CellState::Empty,
    ensures
        count_of(empty_board(), m) == 0,
{
    assert(count_of(empty_board(), m) == 0) by {
        reveal_with_fuel(crate::board::count_upto, 10);
    }
}

/// An open match always offers the engine a move: "no move available
/// but game not terminal" is unreachable.
pub proof fn lemma_open_match_has_move(s: GameSession)
    requires
        s.wf(),
        !s.over(),
    ensures
        best_move_spec(s.spec_board(), s.turn()) is Some,
{
    crate::engine::lemma_best_move_exists(s.spec_board(), s.turn());
}

/// In a well-formed session the two tallies differ by at most one,
/// and `X`, who moves first, is never behind.
pub proof fn lemma_mark_counts_balanced(s: GameSession)
    requires
        s.wf(),
    ensures
        count_of(s.spec_board(), CellState::O) <= count_of(s.spec_board(), CellState::X),
        count_of(s.spec_board(), CellState::X) <= count_of(s.spec_board(), CellState::O) + 1,
{
}

} // verus!
