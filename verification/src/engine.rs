//! The decision engine: exhaustive minimax over the full remaining
//! game tree. Terminal nodes score `10 - depth` for a win of the
//! engine's mark, `depth - 10` for a loss, and `0` for a full board
//! with no winner, so faster wins and slower losses score higher.
//! Candidate cells are tried in row-major order and ties keep the
//! first move found, which makes the chosen move deterministic.

use vstd::prelude::*;

use crate::board::{
    Board, CellState, cell_index, count_of, is_full_spec, lemma_board_view_len, lemma_count_update,
    lemma_count_upto_bound, lemma_winner_characterization, winner_spec, wins,
};

verus! {

broadcast use lemma_board_view_len;

/// The mark that plays against `m`.
pub open spec fn opponent(m: CellState) -> CellState {
    if m == CellState::X {
        CellState::O
    } else {
        CellState::X
    }
}

/// How many cells of the board are still empty.
pub open spec fn empty_count(s: Seq<CellState>) -> nat {
    count_of(s, CellState::Empty)
}

/// The larger of two scores.
pub open spec fn pick_max(a: int, b: int) -> int {
    if a >= b {
        a
    } else {
        b
    }
}

/// The smaller of two scores.
pub open spec fn pick_min(a: int, b: int) -> int {
    if a <= b {
        a
    } else {
        b
    }
}

/// The minimax value of the position `s`, seen from the mark `ai`,
/// `depth` plies below the move under consideration at the root.
/// A node where `ai` has a complete line scores `10 - depth`; one
/// where the opponent has a complete line scores `depth - 10`; a full
/// board with no line scores `0`. Otherwise the mover's best child
/// decides: `ai` maximizes, the opponent minimizes.
pub open spec fn minimax_spec(s: Seq<CellState>, depth: int, maximizing: bool, ai: CellState) -> int
    decreases empty_count(s), 1int, 0int,
    when s.len() == 9 && ai != CellState::Empty
{
    if winner_spec(s) is Some {
        if winner_spec(s) == Some(ai) {
            10 - depth
        } else {
            depth - 10
        }
    } else if is_full_spec(s) {
        0
    } else if maximizing {
        best_max(s, depth, ai, 0)
    } else {
        best_min(s, depth, ai, 0)
    }
}

/// The greatest value among the children reached by placing `ai` on an
/// empty cell with index at least `i`; `-100` when no such cell exists.
pub open spec fn best_max(s: Seq<CellState>, depth: int, ai: CellState, i: int) -> int
    decreases empty_count(s), 0int, 9 - i,
    when s.len() == 9 && ai != CellState::Empty && 0 <= i
    via best_max_decreases
{
    if i >= 9 {
        -100
    } else if s[i] == CellState::Empty {
        pick_max(minimax_spec(s.update(i, ai), depth + 1, false, ai), best_max(s, depth, ai, i + 1))
    } else {
        best_max(s, depth, ai, i + 1)
    }
}

#[via_fn]
proof fn best_max_decreases(s: Seq<CellState>, depth: int, ai: CellState, i: int) {
    if 0 <= i < 9 && s.len() == 9 && ai != CellState::Empty && s[i] == CellState::Empty {
        lemma_count_update(s, i, ai, CellState::Empty);
    }
}

/// The least value among the children reached by placing the opponent
/// of `ai` on an empty cell with index at least `i`; `100` when no
/// such cell exists.
pub open spec fn best_min(s: Seq<CellState>, depth: int, ai: CellState, i: int) -> int
    decreases empty_count(s), 0int, 9 - i,
    when s.len() == 9 && ai != CellState::Empty && 0 <= i
    via best_min_decreases
{
    if i >= 9 {
        100
    } else if s[i] == CellState::Empty {
        pick_min(
            minimax_spec(s.update(i, opponent(ai)), depth + 1, true, ai),
            best_min(s, depth, ai, i + 1),
        )
    } else {
        best_min(s, depth, ai, i + 1)
    }
}

#[via_fn]
proof fn best_min_decreases(s: Seq<CellState>, depth: int, ai: CellState, i: int) {
    if 0 <= i < 9 && s.len() == 9 && ai != CellState::Empty && s[i] == CellState::Empty {
        lemma_count_update(s, i, opponent(ai), CellState::Empty);
    }
}

/// The value of the root move that places `ai` on the empty cell `i`.
pub open spec fn move_score(s: Seq<CellState>, ai: CellState, i: int) -> int {
    minimax_spec(s.update(i, ai), 0, false, ai)
}

/// One step of the root scan: the best move among cells `i..9`, given
/// the best score and move seen so far. A candidate replaces the
/// running best only when its score is strictly greater, so ties keep
/// the first move found in row-major order.
pub open spec fn best_move_from(
    s: Seq<CellState>,
    ai: CellState,
    i: int,
    best_score: int,
    best: Option<(usize, usize)>,
) -> Option<(usize, usize)>
    decreases 9 - i,
{
    if i >= 9 {
        best
    } else if s[i] == CellState::Empty && move_score(s, ai, i) > best_score {
        best_move_from(s, ai, i + 1, move_score(s, ai, i), Some(((i / 3) as usize, (i % 3) as usize)))
    } else {
        best_move_from(s, ai, i + 1, best_score, best)
    }
}

/// The move the decision engine chooses on the board `s` for the mark
/// `ai`: the first empty cell in row-major order whose minimax value
/// is strictly greater than every earlier candidate's.
pub open spec fn best_move_spec(s: Seq<CellState>, ai: CellState) -> Option<(usize, usize)> {
    best_move_from(s, ai, 0, -100, None)
}

/// A board is full exactly when its tally of empty cells is zero.
pub proof fn lemma_empty_count_full(s: Seq<CellState>)
    ensures
        is_full_spec(s) <==> empty_count(s) == 0,
{
    lemma_full_upto_count(s, 9);
}

proof fn lemma_full_upto_count(s: Seq<CellState>, k: int)
    requires
        0 <= k <= 9,
    ensures
        crate::board::count_upto(s, CellState::Empty, k) == 0 <==> (forall|j: int|
            0 <= j < k ==> s[j] != CellState::Empty),
    decreases k,
{
    if k > 0 {
        lemma_full_upto_count(s, k - 1);
    }
}

/// Every minimax value lies between `depth - 10` and `10 - depth`.
pub proof fn lemma_minimax_bounds(s: Seq<CellState>, depth: int, maximizing: bool, ai: CellState)
    requires
        s.len() == 9,
        ai != CellState::Empty,
        0 <= depth,
        depth + empty_count(s) <= 9,
    ensures
        depth - 10 <= minimax_spec(s, depth, maximizing, ai) <= 10 - depth,
    decreases empty_count(s), 1int, 0int,
{
    if winner_spec(s) is Some {
    } else if is_full_spec(s) {
    } else {
        lemma_empty_count_full(s);
        assert(exists|j: int| 0 <= j < 9 && s[j] == CellState::Empty) by {
            assert(!(forall|j: int| 0 <= j < 9 ==> s[j] != CellState::Empty));
        }
        if maximizing {
            lemma_best_max_bounds(s, depth, ai, 0);
        } else {
            lemma_best_min_bounds(s, depth, ai, 0);
        }
    }
}

/// Bounds for the maximizing fold: with an empty cell at or after `i`
/// the fold stays within the child bounds for `depth + 1`; without
/// one it is the `-100` base.
proof fn lemma_best_max_bounds(s: Seq<CellState>, depth: int, ai: CellState, i: int)
    requires
        s.len() == 9,
        ai != CellState::Empty,
        0 <= depth,
        depth + empty_count(s) <= 9,
        0 <= i <= 9,
    ensures
        (exists|j: int| i <= j < 9 && s[j] == CellState::Empty) ==> depth + 1 - 10 <= best_max(
            s,
            depth,
            ai,
            i,
        ) <= 10 - (depth + 1),
        !(exists|j: int| i <= j < 9 && s[j] == CellState::Empty) ==> best_max(s, depth, ai, i)
            == -100,
    decreases empty_count(s), 0int, 9 - i,
{
    if i < 9 {
        lemma_best_max_bounds(s, depth, ai, i + 1);
        if s[i] == CellState::Empty {
            lemma_count_update(s, i, ai, CellState::Empty);
            lemma_minimax_bounds(s.update(i, ai), depth + 1, false, ai);
        }
    }
}

/// Bounds for the minimizing fold, the mirror image of the maximizing
/// one with a `100` base.
proof fn lemma_best_min_bounds(s: Seq<CellState>, depth: int, ai: CellState, i: int)
    requires
        s.len() == 9,
        ai != CellState::Empty,
        0 <= depth,
        depth + empty_count(s) <= 9,
        0 <= i <= 9,
    ensures
        (exists|j: int| i <= j < 9 && s[j] == CellState::Empty) ==> depth + 1 - 10 <= best_min(
            s,
            depth,
            ai,
            i,
        ) <= 10 - (depth + 1),
        !(exists|j: int| i <= j < 9 && s[j] == CellState::Empty) ==> best_min(s, depth, ai, i)
            == 100,
    decreases empty_count(s), 0int, 9 - i,
{
    if i < 9 {
        lemma_best_min_bounds(s, depth, ai, i + 1);
        if s[i] == CellState::Empty {
            lemma_count_update(s, i, opponent(ai), CellState::Empty);
            lemma_minimax_bounds(s.update(i, opponent(ai)), depth + 1, true, ai);
        }
    }
}

/// Exhaustive minimax over the position held by `board`, equal to the
/// mathematical value `minimax_spec` gives it.
fn minimax(board: &Board, depth: i32, is_maximizing: bool, ai_symbol: CellState) -> (score: i32)
    requires
        ai_symbol != CellState::Empty,
        0 <= depth,
        depth + empty_count(board@) <= 9,
    ensures
        score == minimax_spec(board@, depth as int, is_maximizing, ai_symbol),
    decreases empty_count(board@),
{
    if let Some(w) = board.winner() {
        if w == ai_symbol {
            return 10 - depth;
        } else {
            return depth - 10;
        }
    }
    if board.is_full() {
        return 0;
    }
    proof {
        lemma_empty_count_full(board@);
        assert(exists|j: int| 0 <= j < 9 && board@[j] == CellState::Empty) by {
            assert(!(forall|j: int| 0 <= j < 9 ==> board@[j] != CellState::Empty));
        }
        lemma_best_max_bounds(board@, depth as int, ai_symbol, 0);
        lemma_best_min_bounds(board@, depth as int, ai_symbol, 0);
    }
    if is_maximizing {
        let mut best: i32 = -100;
        let mut i: usize = 0;
        while i < 9
            invariant
                i <= 9,
                ai_symbol != CellState::Empty,
                0 <= depth,
                depth + empty_count(board@) <= 9,
                empty_count(board@) >= 1,
                winner_spec(board@) is None,
                !is_full_spec(board@),
                best >= -100,
                pick_max(best as int, best_max(board@, depth as int, ai_symbol, i as int))
                    == best_max(board@, depth as int, ai_symbol, 0),
            decreases 9 - i,
        {
            if board.cell(i) == CellState::Empty {
                let mut temp_board: Board = *board;
                let _ = temp_board.place(i / 3, i % 3, ai_symbol);
                proof {
                    assert(cell_index(((i / 3) as usize, (i % 3) as usize)) == i as int);
                    assert(temp_board@ == board@.update(i as int, ai_symbol));
                    lemma_count_update(board@, i as int, ai_symbol, CellState::Empty);
                }
                let score = minimax(&temp_board, depth + 1, false, ai_symbol);
                if score > best {
                    best = score;
                }
            }
            i = i + 1;
        }
        best
    } else {
        let player_symbol = if ai_symbol == CellState::X {
            CellState::O
        } else {
            CellState::X
        };
        let mut best: i32 = 100;
        let mut i: usize = 0;
        while i < 9
            invariant
                i <= 9,
                ai_symbol != CellState::Empty,
                player_symbol == opponent(ai_symbol),
                0 <= depth,
                depth + empty_count(board@) <= 9,
                empty_count(board@) >= 1,
                winner_spec(board@) is None,
                !is_full_spec(board@),
                best <= 100,
                pick_min(best as int, best_min(board@, depth as int, ai_symbol, i as int))
                    == best_min(board@, depth as int, ai_symbol, 0),
            decreases 9 - i,
        {
            if board.cell(i) == CellState::Empty {
                let mut temp_board: Board = *board;
                let _ = temp_board.place(i / 3, i % 3, player_symbol);
                proof {
                    assert(cell_index(((i / 3) as usize, (i % 3) as usize)) == i as int);
                    assert(temp_board@ == board@.update(i as int, player_symbol));
                    lemma_count_update(board@, i as int, player_symbol, CellState::Empty);
                }
                let score = minimax(&temp_board, depth + 1, true, ai_symbol);
                if score < best {
                    best = score;
                }
            }
            i = i + 1;
        }
        best
    }
}

/// A win of `m` carries over to any board that keeps every cell where
/// `m` stands.
proof fn lemma_wins_agree(s1: Seq<CellState>, s2: Seq<CellState>, m: CellState)
    requires
        forall|c: int| 0 <= c < 9 && s1[c] == m ==> s2[c] == m,
    ensures
        wins(s1, m) ==> wins(s2, m),
{
}

/// Placing one mark never completes a line for the other mark.
proof fn lemma_place_no_new_win_for_other(
    s: Seq<CellState>,
    i: int,
    m: CellState,
    other: CellState,
)
    requires
        s.len() == 9,
        0 <= i < 9,
        m != other,
        !wins(s, other),
    ensures
        !wins(s.update(i, m), other),
{
    lemma_wins_agree(s.update(i, m), s, other);
}

/// The value of a position with no winner where the opponent moves:
/// zero when the board is full, otherwise strictly inside the
/// terminal scores of the ply below.
proof fn lemma_open_position_value(s2: Seq<CellState>, ai: CellState)
    requires
        s2.len() == 9,
        ai != CellState::Empty,
        winner_spec(s2) is None,
        empty_count(s2) <= 9,
    ensures
        is_full_spec(s2) ==> minimax_spec(s2, 0, false, ai) == 0,
        !is_full_spec(s2) ==> -9 <= minimax_spec(s2, 0, false, ai) <= 9,
{
    if !is_full_spec(s2) {
        lemma_empty_count_full(s2);
        assert(exists|j: int| 0 <= j < 9 && s2[j] == CellState::Empty) by {
            assert(!(forall|j: int| 0 <= j < 9 ==> s2[j] != CellState::Empty));
        }
        lemma_best_min_bounds(s2, 0, ai, 0);
    }
}

/// The minimizing fold never exceeds any single child's value.
proof fn lemma_best_min_le_child(s: Seq<CellState>, depth: int, ai: CellState, i: int, k: int)
    requires
        s.len() == 9,
        ai != CellState::Empty,
        0 <= i <= k < 9,
        s[k] == CellState::Empty,
    ensures
        best_min(s, depth, ai, i) <= minimax_spec(s.update(k, opponent(ai)), depth + 1, true, ai),
    decreases k - i,
{
    if i < k {
        lemma_best_min_le_child(s, depth, ai, i + 1, k);
    }
}

/// A lower bound on every child is a lower bound on the minimizing fold.
proof fn lemma_best_min_ge(s: Seq<CellState>, depth: int, ai: CellState, i: int, bound: int)
    requires
        s.len() == 9,
        ai != CellState::Empty,
        0 <= i <= 9,
        bound <= 100,
        forall|k: int|
            i <= k < 9 && s[k] == CellState::Empty ==> minimax_spec(
                s.update(k, opponent(ai)),
                depth + 1,
                true,
                ai,
            ) >= bound,
    ensures
        best_min(s, depth, ai, i) >= bound,
    decreases 9 - i,
{
    if i < 9 {
        lemma_best_min_ge(s, depth, ai, i + 1, bound);
    }
}

/// When no candidate at or after `i` beats the running best score,
/// the root scan keeps the running best move.
proof fn lemma_fold_keeps(
    s: Seq<CellState>,
    ai: CellState,
    i: int,
    best_score: int,
    best: Option<(usize, usize)>,
)
    requires
        0 <= i,
        forall|j: int|
            i <= j < 9 && s[j] == CellState::Empty ==> move_score(s, ai, j) <= best_score,
    ensures
        best_move_from(s, ai, i, best_score, best) == best,
    decreases 9 - i,
{
    if i < 9 {
        lemma_fold_keeps(s, ai, i + 1, best_score, best);
    }
}

/// When the empty cell `t` beats the running best score, every
/// earlier empty candidate scores strictly less than `t`, and no
/// later one scores more, the root scan lands on `t`.
proof fn lemma_fold_picks_first_best(
    s: Seq<CellState>,
    ai: CellState,
    i: int,
    best_score: int,
    best: Option<(usize, usize)>,
    t: int,
)
    requires
        0 <= i <= t < 9,
        s[t] == CellState::Empty,
        move_score(s, ai, t) > best_score,
        forall|j: int|
            i <= j < t && s[j] == CellState::Empty ==> move_score(s, ai, j) < move_score(s, ai, t),
        forall|j: int|
            t < j < 9 && s[j] == CellState::Empty ==> move_score(s, ai, j) <= move_score(s, ai, t),
    ensures
        best_move_from(s, ai, i, best_score, best) == Some(((t / 3) as usize, (t % 3) as usize)),
    decreases 9 - i,
{
    if i == t {
        lemma_fold_keeps(
            s,
            ai,
            t + 1,
            move_score(s, ai, t),
            Some(((t / 3) as usize, (t % 3) as usize)),
        );
    } else {
        if s[i] == CellState::Empty && move_score(s, ai, i) > best_score {
            lemma_fold_picks_first_best(
                s,
                ai,
                i + 1,
                move_score(s, ai, i),
                Some(((i / 3) as usize, (i % 3) as usize)),
                t,
            );
        } else {
            lemma_fold_picks_first_best(s, ai, i + 1, best_score, best, t);
        }
    }
}

/// The maximizing fold attains the value of one of its children.
proof fn lemma_best_max_attained(s: Seq<CellState>, depth: int, ai: CellState, i: int)
    requires
        s.len() == 9,
        ai != CellState::Empty,
        0 <= depth,
        depth + empty_count(s) <= 9,
        0 <= i <= 9,
        exists|j: int| i <= j < 9 && s[j] == CellState::Empty,
    ensures
        exists|k: int|
            i <= k < 9 && s[k] == CellState::Empty && best_max(s, depth, ai, i) == minimax_spec(
                s.update(k, ai),
                depth + 1,
                false,
                ai,
            ),
    decreases 9 - i,
{
    let j = choose|j: int| i <= j < 9 && s[j] == CellState::Empty;
    if s[i as int] == CellState::Empty {
        let child = minimax_spec(s.update(i, ai), depth + 1, false, ai);
        if exists|j2: int| i + 1 <= j2 < 9 && s[j2] == CellState::Empty {
            lemma_best_max_attained(s, depth, ai, i + 1);
            let k2 = choose|k: int|
                i + 1 <= k < 9 && s[k] == CellState::Empty && best_max(s, depth, ai, i + 1)
                    == minimax_spec(s.update(k, ai), depth + 1, false, ai);
            if child >= best_max(s, depth, ai, i + 1) {
                assert(best_max(s, depth, ai, i) == child);
            } else {
                assert(best_max(s, depth, ai, i) == minimax_spec(
                    s.update(k2, ai),
                    depth + 1,
                    false,
                    ai,
                ));
            }
        } else {
            lemma_best_max_bounds(s, depth, ai, i + 1);
            lemma_count_update(s, i, ai, CellState::Empty);
            lemma_minimax_bounds(s.update(i, ai), depth + 1, false, ai);
            assert(best_max(s, depth, ai, i) == child);
        }
    } else {
        assert(i + 1 <= j);
        lemma_best_max_attained(s, depth, ai, i + 1);
    }
}

/// The minimizing fold attains the value of one of its children.
proof fn lemma_best_min_attained(s: Seq<CellState>, depth: int, ai: CellState, i: int)
    requires
        s.len() == 9,
        ai != CellState::Empty,
        0 <= depth,
        depth + empty_count(s) <= 9,
        0 <= i <= 9,
        exists|j: int| i <= j < 9 && s[j] == CellState::Empty,
    ensures
        exists|k: int|
            i <= k < 9 && s[k] == CellState::Empty && best_min(s, depth, ai, i) == minimax_spec(
                s.update(k, opponent(ai)),
                depth + 1,
                true,
                ai,
            ),
    decreases 9 - i,
{
    let j = choose|j: int| i <= j < 9 && s[j] == CellState::Empty;
    if s[i as int] == CellState::Empty {
        let child = minimax_spec(s.update(i, opponent(ai)), depth + 1, true, ai);
        if exists|j2: int| i + 1 <= j2 < 9 && s[j2] == CellState::Empty {
            lemma_best_min_attained(s, depth, ai, i + 1);
            let k2 = choose|k: int|
                i + 1 <= k < 9 && s[k] == CellState::Empty && best_min(s, depth, ai, i + 1)
                    == minimax_spec(s.update(k, opponent(ai)), depth + 1, true, ai);
            if child <= best_min(s, depth, ai, i + 1) {
                assert(best_min(s, depth, ai, i) == child);
            } else {
                assert(best_min(s, depth, ai, i) == minimax_spec(
                    s.update(k2, opponent(ai)),
                    depth + 1,
                    true,
                    ai,
                ));
            }
        } else {
            lemma_best_min_bounds(s, depth, ai, i + 1);
            lemma_count_update(s, i, opponent(ai), CellState::Empty);
            lemma_minimax_bounds(s.update(i, opponent(ai)), depth + 1, true, ai);
            assert(best_min(s, depth, ai, i) == child);
        }
    } else {
        assert(i + 1 <= j);
        lemma_best_min_attained(s, depth, ai, i + 1);
    }
}

/// Minimax values are quantized: zero, or a win or loss recorded
/// within the plies that the empty cells still allow. In particular a
/// nonzero value keeps a distance of at least `10 - depth - empties`
/// from zero.
proof fn lemma_minimax_quantized(s: Seq<CellState>, depth: int, maximizing: bool, ai: CellState)
    requires
        s.len() == 9,
        ai != CellState::Empty,
        0 <= depth,
        depth + empty_count(s) <= 9,
    ensures
        minimax_spec(s, depth, maximizing, ai) == 0 || (10 - depth - empty_count(s) <= minimax_spec(
            s,
            depth,
            maximizing,
            ai,
        ) <= 10 - depth) || (-(10 - depth) <= minimax_spec(s, depth, maximizing, ai) <= -(10 - depth
            - empty_count(s))),
    decreases empty_count(s), 1int, 0int,
{
    if winner_spec(s) is Some {
    } else if is_full_spec(s) {
    } else {
        lemma_empty_count_full(s);
        assert(exists|j: int| 0 <= j < 9 && s[j] == CellState::Empty) by {
            assert(!(forall|j: int| 0 <= j < 9 ==> s[j] != CellState::Empty));
        }
        if maximizing {
            lemma_best_max_attained(s, depth, ai, 0);
            let k = choose|k: int|
                0 <= k < 9 && s[k] == CellState::Empty && best_max(s, depth, ai, 0) == minimax_spec(
                    s.update(k, ai),
                    depth + 1,
                    false,
                    ai,
                );
            lemma_count_update(s, k, ai, CellState::Empty);
            lemma_minimax_quantized(s.update(k, ai), depth + 1, false, ai);
        } else {
            lemma_best_min_attained(s, depth, ai, 0);
            let k = choose|k: int|
                0 <= k < 9 && s[k] == CellState::Empty && best_min(s, depth, ai, 0) == minimax_spec(
                    s.update(k, opponent(ai)),
                    depth + 1,
                    true,
                    ai,
                );
            lemma_count_update(s, k, opponent(ai), CellState::Empty);
            lemma_minimax_quantized(s.update(k, opponent(ai)), depth + 1, true, ai);
        }
    }
}

/// What a result worth `x` at the root is worth `d` plies further
/// down: wins lose `d` points, losses gain `d`, a draw stays zero.
pub open spec fn score_at_depth(x: int, d: int) -> int {
    if x > 0 {
        x - d
    } else if x < 0 {
        x + d
    } else {
        0
    }
}

/// The maximizing fold at depth `d` is the depth-adjusted fold at
/// depth zero, and the depth-zero fold is quantized away from zero.
proof fn lemma_best_max_shift(s: Seq<CellState>, depth: int, ai: CellState, i: int)
    requires
        s.len() == 9,
        ai != CellState::Empty,
        0 <= depth,
        depth + empty_count(s) <= 9,
        0 <= i <= 9,
    ensures
        (exists|j: int| i <= j < 9 && s[j] == CellState::Empty) ==> {
            &&& best_max(s, depth, ai, i) == score_at_depth(best_max(s, 0, ai, i), depth)
            &&& (best_max(s, 0, ai, i) == 0 || (10 - empty_count(s) <= best_max(s, 0, ai, i) <= 9)
                || (-9 <= best_max(s, 0, ai, i) <= -(10 - empty_count(s))))
        },
    decreases empty_count(s), 0int, 9 - i,
{
    if i < 9 {
        if s[i as int] == CellState::Empty {
            let c = s.update(i, ai);
            lemma_count_update(s, i, ai, CellState::Empty);
            lemma_minimax_shift(c, depth + 1, false, ai);
            lemma_minimax_shift(c, 1, false, ai);
            lemma_minimax_quantized(c, 0, false, ai);
            if exists|j: int| i + 1 <= j < 9 && s[j] == CellState::Empty {
                lemma_best_max_shift(s, depth, ai, i + 1);
            } else {
                lemma_best_max_bounds(s, depth, ai, i + 1);
                lemma_best_max_bounds(s, 0, ai, i + 1);
                lemma_minimax_bounds(c, depth + 1, false, ai);
                lemma_minimax_bounds(c, 1, false, ai);
            }
        } else {
            lemma_best_max_shift(s, depth, ai, i + 1);
        }
    }
}

/// The minimizing fold at depth `d` is the depth-adjusted fold at
/// depth zero, and the depth-zero fold is quantized away from zero.
proof fn lemma_best_min_shift(s: Seq<CellState>, depth: int, ai: CellState, i: int)
    requires
        s.len() == 9,
        ai != CellState::Empty,
        0 <= depth,
        depth + empty_count(s) <= 9,
        0 <= i <= 9,
    ensures
        (exists|j: int| i <= j < 9 && s[j] == CellState::Empty) ==> {
            &&& best_min(s, depth, ai, i) == score_at_depth(best_min(s, 0, ai, i), depth)
            &&& (best_min(s, 0, ai, i) == 0 || (10 - empty_count(s) <= best_min(s, 0, ai, i) <= 9)
                || (-9 <= best_min(s, 0, ai, i) <= -(10 - empty_count(s))))
        },
    decreases empty_count(s), 0int, 9 - i,
{
    if i < 9 {
        if s[i as int] == CellState::Empty {
            let c = s.update(i, opponent(ai));
            lemma_count_update(s, i, opponent(ai), CellState::Empty);
            lemma_minimax_shift(c, depth + 1, true, ai);
            lemma_minimax_shift(c, 1, true, ai);
            lemma_minimax_quantized(c, 0, true, ai);
            if exists|j: int| i + 1 <= j < 9 && s[j] == CellState::Empty {
                lemma_best_min_shift(s, depth, ai, i + 1);
            } else {
                lemma_best_min_bounds(s, depth, ai, i + 1);
                lemma_best_min_bounds(s, 0, ai, i + 1);
                lemma_minimax_bounds(c, depth + 1, true, ai);
                lemma_minimax_bounds(c, 1, true, ai);
            }
        } else {
            lemma_best_min_shift(s, depth, ai, i + 1);
        }
    }
}

/// The minimax value at depth `d` is the depth-adjusted value at
/// depth zero: the depth convention moves scores toward zero but
/// never changes which side a position favours.
proof fn lemma_minimax_shift(s: Seq<CellState>, depth: int, maximizing: bool, ai: CellState)
    requires
        s.len() == 9,
        ai != CellState::Empty,
        0 <= depth,
        depth + empty_count(s) <= 9,
    ensures
        minimax_spec(s, depth, maximizing, ai) == score_at_depth(
            minimax_spec(s, 0, maximizing, ai),
            depth,
        ),
    decreases empty_count(s), 1int, 0int,
{
    if winner_spec(s) is Some {
    } else if is_full_spec(s) {
    } else {
        lemma_empty_count_full(s);
        assert(exists|j: int| 0 <= j < 9 && s[j] == CellState::Empty) by {
            assert(!(forall|j: int| 0 <= j < 9 ==> s[j] != CellState::Empty));
        }
        if maximizing {
            lemma_best_max_shift(s, depth, ai, 0);
        } else {
            lemma_best_min_shift(s, depth, ai, 0);
        }
    }
}

/// Once the root scan carries a move, or some remaining candidate
/// beats the running best score, it ends with a move.
proof fn lemma_fold_some(
    s: Seq<CellState>,
    ai: CellState,
    i: int,
    best_score: int,
    best: Option<(usize, usize)>,
)
    requires
        0 <= i <= 9,
        best is Some || (exists|j: int|
            i <= j < 9 && s[j] == CellState::Empty && move_score(s, ai, j) > best_score),
    ensures
        best_move_from(s, ai, i, best_score, best) is Some,
    decreases 9 - i,
{
    if i < 9 {
        if s[i] == CellState::Empty && move_score(s, ai, i) > best_score {
            lemma_fold_some(
                s,
                ai,
                i + 1,
                move_score(s, ai, i),
                Some(((i / 3) as usize, (i % 3) as usize)),
            );
        } else {
            lemma_fold_some(s, ai, i + 1, best_score, best);
        }
    }
}

/// The engine finds a move exactly when the board is not full: `None`
/// at the root signals a full board and nothing else.
pub proof fn lemma_best_move_exists(s: Seq<CellState>, ai: CellState)
    requires
        s.len() == 9,
        ai != CellState::Empty,
    ensures
        (best_move_spec(s, ai) is Some) <==> !is_full_spec(s),
{
    lemma_count_upto_bound(s, CellState::Empty, 9);
    if is_full_spec(s) {
        lemma_fold_keeps(s, ai, 0, -100, None);
    } else {
        assert(exists|j: int| 0 <= j < 9 && s[j] == CellState::Empty) by {
            assert(!(forall|j: int| 0 <= j < 9 ==> s[j] != CellState::Empty));
        }
        let j = choose|j: int| 0 <= j < 9 && s[j] == CellState::Empty;
        lemma_count_update(s, j, ai, CellState::Empty);
        lemma_minimax_bounds(s.update(j, ai), 0, false, ai);
        assert(move_score(s, ai, j) > -100);
        lemma_fold_some(s, ai, 0, -100, None);
    }
}

/// Running the root scan from cell `i` with a sound running best
/// yields a sound result: the returned move is an empty cell whose
/// score no empty cell of the whole board beats.
proof fn lemma_fold_argmax(
    s: Seq<CellState>,
    ai: CellState,
    i: int,
    best_score: int,
    best: Option<(usize, usize)>,
)
    requires
        s.len() == 9,
        ai != CellState::Empty,
        0 <= i <= 9,
        best is None ==> best_score == -100 && (forall|j: int|
            0 <= j < i ==> s[j] != CellState::Empty),
        best matches Some(rc) ==> {
            &&& rc.0 < 3
            &&& rc.1 < 3
            &&& cell_index(rc) < i
            &&& s[cell_index(rc)] == CellState::Empty
            &&& best_score == move_score(s, ai, cell_index(rc))
            &&& forall|j: int|
                0 <= j < i && s[j] == CellState::Empty ==> move_score(s, ai, j) <= best_score
        },
        forall|j: int| 0 <= j < 9 && s[j] == CellState::Empty ==> move_score(s, ai, j) > -100,
    ensures
        ({
            let r = best_move_from(s, ai, i, best_score, best);
            &&& (r is None ==> forall|j: int| 0 <= j < 9 ==> s[j] != CellState::Empty)
            &&& (r matches Some(rc2) ==> {
                &&& rc2.0 < 3
                &&& rc2.1 < 3
                &&& s[cell_index(rc2)] == CellState::Empty
                &&& forall|j: int|
                    0 <= j < 9 && s[j] == CellState::Empty ==> move_score(s, ai, j) <= move_score(
                        s,
                        ai,
                        cell_index(rc2),
                    )
            })
        }),
    decreases 9 - i,
{
    if i < 9 {
        if s[i as int] == CellState::Empty && move_score(s, ai, i) > best_score {
            assert(cell_index(((i / 3) as usize, (i % 3) as usize)) == i);
            lemma_fold_argmax(
                s,
                ai,
                i + 1,
                move_score(s, ai, i),
                Some(((i / 3) as usize, (i % 3) as usize)),
            );
        } else {
            lemma_fold_argmax(s, ai, i + 1, best_score, best);
        }
    }
}

/// On a board that is not full the root scan returns an empty cell
/// whose minimax value no other empty cell exceeds.
pub proof fn lemma_best_move_argmax(s: Seq<CellState>, ai: CellState)
    requires
        s.len() == 9,
        ai != CellState::Empty,
        !is_full_spec(s),
    ensures
        best_move_spec(s, ai) matches Some(rc) && {
            &&& rc.0 < 3
            &&& rc.1 < 3
            &&& s[cell_index(rc)] == CellState::Empty
            &&& forall|j: int|
                0 <= j < 9 && s[j] == CellState::Empty ==> move_score(s, ai, j) <= move_score(
                    s,
                    ai,
                    cell_index(rc),
                )
        },
{
    lemma_count_upto_bound(s, CellState::Empty, 9);
    assert forall|j: int|
        0 <= j < 9 && s[j] == CellState::Empty implies move_score(s, ai, j) > -100 by {
        lemma_count_update(s, j, ai, CellState::Empty);
        lemma_minimax_bounds(s.update(j, ai), 0, false, ai);
    }
    lemma_fold_argmax(s, ai, 0, -100, None);
    lemma_best_move_exists(s, ai);
}

/// The engine takes an immediate win: on a board with no winner yet,
/// where `w` is the first empty cell in row-major order at which the
/// mark `ai` completes a line, the chosen move is `w`.
pub proof fn lemma_takes_immediate_win(s: Seq<CellState>, ai: CellState, w: int)
    requires
        s.len() == 9,
        ai != CellState::Empty,
        winner_spec(s) is None,
        0 <= w < 9,
        s[w] == CellState::Empty,
        wins(s.update(w, ai), ai),
        forall|j: int|
            0 <= j < w && s[j] == CellState::Empty ==> !wins(s.update(j, ai), ai),
    ensures
        best_move_spec(s, ai) == Some(((w / 3) as usize, (w % 3) as usize)),
{
    let opp = opponent(ai);
    assert(!wins(s, CellState::X) && !wins(s, CellState::O));
    lemma_count_upto_bound(s, CellState::Empty, 9);
    let sw = s.update(w, ai);
    lemma_place_no_new_win_for_other(s, w, ai, opp);
    lemma_winner_characterization(sw);
    assert(winner_spec(sw) == Some(ai));
    assert(move_score(s, ai, w) == 10);
    assert forall|j: int|
        0 <= j < 9 && s[j] == CellState::Empty && j != w implies move_score(s, ai, j) <= 10 by {
        lemma_count_update(s, j, ai, CellState::Empty);
        lemma_minimax_bounds(s.update(j, ai), 0, false, ai);
    }
    assert forall|j: int|
        0 <= j < w && s[j] == CellState::Empty implies move_score(s, ai, j) < 10 by {
        let sj = s.update(j, ai);
        lemma_place_no_new_win_for_other(s, j, ai, opp);
        lemma_winner_characterization(sj);
        lemma_count_update(s, j, ai, CellState::Empty);
        lemma_open_position_value(sj, ai);
    }
    lemma_fold_picks_first_best(s, ai, 0, -100, None, w);
}

/// The engine blocks an immediate loss: on a board with no winner
/// yet, where the opponent of `ai` would complete a line by playing
/// the one cell `b`, and `ai` itself can complete no line this move,
/// the chosen move is `b`.
pub proof fn lemma_blocks_immediate_loss(s: Seq<CellState>, ai: CellState, b: int)
    requires
        s.len() == 9,
        ai != CellState::Empty,
        winner_spec(s) is None,
        0 <= b < 9,
        s[b] == CellState::Empty,
        wins(s.update(b, opponent(ai)), opponent(ai)),
        forall|j: int|
            0 <= j < 9 && s[j] == CellState::Empty && j != b ==> !wins(
                s.update(j, opponent(ai)),
                opponent(ai),
            ),
        forall|j: int|
            0 <= j < 9 && s[j] == CellState::Empty ==> !wins(s.update(j, ai), ai),
    ensures
        best_move_spec(s, ai) == Some(((b / 3) as usize, (b % 3) as usize)),
{
    let opp = opponent(ai);
    assert(!wins(s, CellState::X) && !wins(s, CellState::O));
    lemma_count_upto_bound(s, CellState::Empty, 9);

    // Every other empty cell loses at once: the opponent answers at `b`.
    assert forall|j: int|
        0 <= j < 9 && s[j] == CellState::Empty && j != b implies move_score(s, ai, j) == -9 by {
        let sj = s.update(j, ai);
        lemma_place_no_new_win_for_other(s, j, ai, opp);
        lemma_winner_characterization(sj);
        lemma_count_update(s, j, ai, CellState::Empty);
        assert(sj[b] == CellState::Empty);
        assert(!is_full_spec(sj));
        // the threat at `b` is still open in `sj`
        let child = sj.update(b, opp);
        lemma_wins_agree(s.update(b, opp), child, opp);
        assert(wins(child, opp));
        lemma_place_no_new_win_for_other(sj, b, opp, ai);
        lemma_winner_characterization(child);
        assert(winner_spec(child) == Some(opp));
        assert(minimax_spec(child, 1, true, ai) == -9);
        lemma_best_min_le_child(sj, 0, ai, 0, b);
        lemma_best_min_bounds(sj, 0, ai, 0);
        assert(exists|k: int| 0 <= k < 9 && sj[k] == CellState::Empty);
        assert(minimax_spec(sj, 0, false, ai) == -9);
    }

    // Blocking keeps every reply of the opponent from winning at once,
    // so the blocked position is worth at least -8.
    let sb = s.update(b, ai);
    lemma_place_no_new_win_for_other(s, b, ai, opp);
    lemma_winner_characterization(sb);
    assert(winner_spec(sb) is None);
    lemma_count_update(s, b, ai, CellState::Empty);
    if is_full_spec(sb) {
        lemma_open_position_value(sb, ai);
        assert(move_score(s, ai, b) == 0);
    } else {
        assert forall|k: int|
            0 <= k < 9 && sb[k] == CellState::Empty implies minimax_spec(
            sb.update(k, opp),
            1,
            true,
            ai,
        ) >= -8 by {
            let child = sb.update(k, opp);
            assert(k != b);
            assert(s[k] == CellState::Empty);
            // no reply of the opponent completes a line: a line complete
            // for the opponent in `child` avoids `b` and so would already
            // have been completable in `s` at `k`, against uniqueness of `b`
            lemma_wins_agree(child, s.update(k, opp), opp);
            assert(!wins(child, opp));
            lemma_place_no_new_win_for_other(sb, k, opp, ai);
            lemma_winner_characterization(child);
            assert(winner_spec(child) is None);
            lemma_count_update(sb, k, opp, CellState::Empty);
            if is_full_spec(child) {
                assert(minimax_spec(child, 1, true, ai) == 0);
            } else {
                lemma_empty_count_full(child);
                assert(exists|j: int| 0 <= j < 9 && child[j] == CellState::Empty) by {
                    assert(!(forall|j: int| 0 <= j < 9 ==> child[j] != CellState::Empty));
                }
                lemma_best_max_bounds(child, 1, ai, 0);
            }
        }
        lemma_best_min_ge(sb, 0, ai, 0, -8);
        assert(move_score(s, ai, b) >= -8);
    }
    lemma_fold_picks_first_best(s, ai, 0, -100, None, b);
}

/// The engine never loses from a position it does not already score
/// as lost. On an open board where the engine's chosen move scores at
/// least zero, that move never hands the opponent a win: either it
/// ends the game at once — with a win for the engine or a draw — or,
/// whatever cell the opponent answers with, the opponent has not won,
/// and on the reply position the engine's next chosen move again
/// scores at least zero. Repeated through a whole game this keeps
/// every terminal position free of an opponent win.
pub proof fn lemma_engine_never_loses_step(s: Seq<CellState>, ai: CellState)
    requires
        s.len() == 9,
        ai != CellState::Empty,
        winner_spec(s) is None,
        !is_full_spec(s),
        best_move_spec(s, ai) matches Some(rc) && move_score(s, ai, cell_index(rc)) >= 0,
    ensures
        best_move_spec(s, ai) matches Some(rc) && ({
            let s1 = s.update(cell_index(rc), ai);
            &&& (winner_spec(s1) matches Some(m) ==> m == ai)
            &&& ((winner_spec(s1) is None && !is_full_spec(s1)) ==> forall|k: int|
                0 <= k < 9 && s1[k] == CellState::Empty ==> ({
                    let s2 = s1.update(k, opponent(ai));
                    &&& winner_spec(s2) is None
                    &&& (!is_full_spec(s2) ==> (best_move_spec(s2, ai) matches Some(rc2)
                        && move_score(s2, ai, cell_index(rc2)) >= 0))
                }))
        }),
{
    let rc = best_move_spec(s, ai)->0;
    let j0 = cell_index(rc);
    let s1 = s.update(j0, ai);
    lemma_best_move_argmax(s, ai);
    assert(!wins(s, CellState::X) && !wins(s, CellState::O));
    lemma_place_no_new_win_for_other(s, j0, ai, opponent(ai));
    lemma_winner_characterization(s1);
    lemma_count_upto_bound(s, CellState::Empty, 9);
    lemma_count_update(s, j0, ai, CellState::Empty);
    if winner_spec(s1) is None && !is_full_spec(s1) {
        assert(minimax_spec(s1, 0, false, ai) == best_min(s1, 0, ai, 0));
        assert forall|k: int| 0 <= k < 9 && s1[k] == CellState::Empty implies ({
            let s2 = s1.update(k, opponent(ai));
            &&& winner_spec(s2) is None
            &&& (!is_full_spec(s2) ==> (best_move_spec(s2, ai) matches Some(rc2) && move_score(
                s2,
                ai,
                cell_index(rc2),
            ) >= 0))
        }) by {
            let s2 = s1.update(k, opponent(ai));
            lemma_best_min_le_child(s1, 0, ai, 0, k);
            assert(minimax_spec(s2, 1, true, ai) >= 0);
            lemma_place_no_new_win_for_other(s1, k, opponent(ai), ai);
            lemma_count_update(s1, k, opponent(ai), CellState::Empty);
            if wins(s2, opponent(ai)) {
                lemma_winner_characterization(s2);
                assert(minimax_spec(s2, 1, true, ai) == 1 - 10);
            }
            lemma_winner_characterization(s2);
            assert(winner_spec(s2) is None);
            if !is_full_spec(s2) {
                lemma_minimax_shift(s2, 1, true, ai);
                lemma_minimax_quantized(s2, 0, true, ai);
                assert(minimax_spec(s2, 0, true, ai) >= 0);
                lemma_empty_count_full(s2);
                assert(exists|j: int| 0 <= j < 9 && s2[j] == CellState::Empty) by {
                    assert(!(forall|j: int| 0 <= j < 9 ==> s2[j] != CellState::Empty));
                }
                assert(minimax_spec(s2, 0, true, ai) == best_max(s2, 0, ai, 0));
                lemma_best_max_attained(s2, 0, ai, 0);
                let k2 = choose|k2: int|
                    0 <= k2 < 9 && s2[k2] == CellState::Empty && best_max(s2, 0, ai, 0)
                        == minimax_spec(s2.update(k2, ai), 1, false, ai);
                let c2 = s2.update(k2, ai);
                lemma_count_update(s2, k2, ai, CellState::Empty);
                lemma_minimax_shift(c2, 1, false, ai);
                lemma_minimax_quantized(c2, 0, false, ai);
                assert(move_score(s2, ai, k2) >= 0);
                lemma_best_move_argmax(s2, ai);
            }
        }
    }
}

/// The optimal move for `ai_symbol` on `board`, or `None` exactly
/// when the board is full. The chosen cell is empty, its minimax
/// value is at least that of every other empty cell, and every
/// earlier cell in row-major order scores strictly less — the
/// first-found tie-break that makes the engine deterministic.
pub fn find_best_move(board: &Board, ai_symbol: CellState) -> (r: Option<(usize, usize)>)
    requires
        ai_symbol != CellState::Empty,
    ensures
        r == best_move_spec(board@, ai_symbol),
        (r is None) <==> is_full_spec(board@),
        r matches Some(rc) ==> {
            &&& rc.0 < 3
            &&& rc.1 < 3
            &&& board@[cell_index(rc)] == CellState::Empty
            &&& forall|j: int|
                0 <= j < 9 && board@[j] == CellState::Empty ==> move_score(board@, ai_symbol, j)
                    <= move_score(board@, ai_symbol, cell_index(rc))
            &&& forall|j: int|
                0 <= j < cell_index(rc) && board@[j] == CellState::Empty ==> move_score(
                    board@,
                    ai_symbol,
                    j,
                ) < move_score(board@, ai_symbol, cell_index(rc))
        },
{
    let mut best: i32 = -100;
    let mut best_mv: Option<(usize, usize)> = None;
    let mut i: usize = 0;
    while i < 9
        invariant
            i <= 9,
            ai_symbol != CellState::Empty,
            best_move_from(board@, ai_symbol, i as int, best as int, best_mv) == best_move_spec(
                board@,
                ai_symbol,
            ),
            best_mv is None ==> best == -100 && (forall|j: int|
                0 <= j < i ==> board@[j] != CellState::Empty),
            best_mv matches Some(rc) ==> {
                &&& rc.0 < 3
                &&& rc.1 < 3
                &&& cell_index(rc) < i
                &&& board@[cell_index(rc)] == CellState::Empty
                &&& best == move_score(board@, ai_symbol, cell_index(rc))
                &&& best > -100
                &&& forall|j: int|
                    0 <= j < i && board@[j] == CellState::Empty ==> move_score(
                        board@,
                        ai_symbol,
                        j,
                    ) <= best as int
                &&& forall|j: int|
                    0 <= j < cell_index(rc) && board@[j] == CellState::Empty ==> move_score(
                        board@,
                        ai_symbol,
                        j,
                    ) < best as int
            },
        decreases 9 - i,
    {
        if board.cell(i) == CellState::Empty {
            let mut temp_board: Board = *board;
            let _ = temp_board.place(i / 3, i % 3, ai_symbol);
            proof {
                assert(cell_index(((i / 3) as usize, (i % 3) as usize)) == i as int);
                assert(temp_board@ == board@.update(i as int, ai_symbol));
                lemma_count_upto_bound(board@, CellState::Empty, 9);
                lemma_count_update(board@, i as int, ai_symbol, CellState::Empty);
                lemma_minimax_bounds(temp_board@, 0, false, ai_symbol);
            }
            let score = minimax(&temp_board, 0, false, ai_symbol);
            if score > best {
                best = score;
                best_mv = Some((i / 3, i % 3));
            }
        }
        i = i + 1;
    }
    best_mv
}

} // verus!
