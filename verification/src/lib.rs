//! Game-state core of a 3x3 tic-tac-toe game: the board model,
//! win/draw detection, the minimax decision engine, and the session
//! state machine that drives a match. All of it carries contracts
//! that are checked by Verus; rendering and input live outside.

pub mod board;
pub mod engine;
pub mod session;
