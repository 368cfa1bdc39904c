//! The 3x3 board: cell states, mutation one cell at a time, and the
//! win/draw queries. The board is modelled as a sequence of nine cells
//! in row-major order; `cell_index` maps a (row, col) pair to it.

use vstd::prelude::*;

verus! {

/// What a single cell holds: nothing yet, or one of the two marks.
#[derive(Clone, Copy, PartialEq, Eq, Structural, Debug)]
pub enum CellState {
    Empty,
    X,
    O,
}

/// The only move error: the target cell is already occupied.
#[derive(Clone, Copy, PartialEq, Eq, Structural, Debug)]
pub struct InvalidMove;

/// Flat index of the cell at (row, col), row-major.
pub open spec fn cell_index(rc: (usize, usize)) -> int {
    rc.0 * 3 + rc.1
}

/// The board of a fresh game: nine empty cells.
pub open spec fn empty_board() -> Seq<CellState> {
    seq![CellState::Empty; 9]
}

/// The three coordinates of line `l`, for `0 <= l < 8`: lines 0..2 are
/// the rows, 3..5 the columns, 6 the main diagonal, 7 the anti-diagonal.
/// This order is the scan order that `check_winner_pure` reports by.
pub open spec fn line_coords(l: int) -> Seq<(usize, usize)> {
    if l == 0 {
        seq![(0usize, 0usize), (0usize, 1usize), (0usize, 2usize)]
    } else if l == 1 {
        seq![(1usize, 0usize), (1usize, 1usize), (1usize, 2usize)]
    } else if l == 2 {
        seq![(2usize, 0usize), (2usize, 1usize), (2usize, 2usize)]
    } else if l == 3 {
        seq![(0usize, 0usize), (1usize, 0usize), (2usize, 0usize)]
    } else if l == 4 {
        seq![(0usize, 1usize), (1usize, 1usize), (2usize, 1usize)]
    } else if l == 5 {
        seq![(0usize, 2usize), (1usize, 2usize), (2usize, 2usize)]
    } else if l == 6 {
        seq![(0usize, 0usize), (1usize, 1usize), (2usize, 2usize)]
    } else {
        seq![(0usize, 2usize), (1usize, 1usize), (2usize, 0usize)]
    }
}

/// Line `l` is fully occupied by the mark `m`.
pub open spec fn line_won_by(s: Seq<CellState>, l: int, m: CellState) -> bool {
    &&& m != CellState::Empty
    &&& s[cell_index(line_coords(l)[0])] == m
    &&& s[cell_index(line_coords(l)[1])] == m
    &&& s[cell_index(line_coords(l)[2])] == m
}

/// Some row, column, or diagonal is fully occupied by the mark `m`.
pub open spec fn wins(s: Seq<CellState>, m: CellState) -> bool {
    ||| line_won_by(s, 0, m)
    ||| line_won_by(s, 1, m)
    ||| line_won_by(s, 2, m)
    ||| line_won_by(s, 3, m)
    ||| line_won_by(s, 4, m)
    ||| line_won_by(s, 5, m)
    ||| line_won_by(s, 6, m)
    ||| line_won_by(s, 7, m)
}

/// Line `l` holds three equal non-empty cells.
pub open spec fn line_complete(s: Seq<CellState>, l: int) -> bool {
    ||| line_won_by(s, l, CellState::X)
    ||| line_won_by(s, l, CellState::O)
}

/// The first complete line in scan order, if any.
pub open spec fn first_won_line(s: Seq<CellState>) -> Option<int> {
    if line_complete(s, 0) {
        Some(0int)
    } else if line_complete(s, 1) {
        Some(1int)
    } else if line_complete(s, 2) {
        Some(2int)
    } else if line_complete(s, 3) {
        Some(3int)
    } else if line_complete(s, 4) {
        Some(4int)
    } else if line_complete(s, 5) {
        Some(5int)
    } else if line_complete(s, 6) {
        Some(6int)
    } else if line_complete(s, 7) {
        Some(7int)
    } else {
        None
    }
}

/// The mark that owns the first complete line, if any. On a board a
/// legal game can reach, at most one mark has a complete line, so the
/// scan order does not affect this value.
pub open spec fn winner_spec(s: Seq<CellState>) -> Option<CellState> {
    match first_won_line(s) {
        Some(l) => Some(s[cell_index(line_coords(l)[0])]),
        None => None,
    }
}

/// No cell among the first `i` is empty.
pub open spec fn full_upto(s: Seq<CellState>, i: int) -> bool {
    forall|j: int| 0 <= j < i ==> s[j] != CellState::Empty
}

/// Every one of the nine cells is occupied.
pub open spec fn is_full_spec(s: Seq<CellState>) -> bool {
    full_upto(s, 9)
}

/// How many of the first `i` cells hold the mark `m`.
pub open spec fn count_upto(s: Seq<CellState>, m: CellState, i: int) -> nat
    decreases i,
{
    if i <= 0 {
        0
    } else {
        count_upto(s, m, i - 1) + (if s[i - 1] == m { 1nat } else { 0nat })
    }
}

/// How many of the nine cells hold the mark `m`.
pub open spec fn count_of(s: Seq<CellState>, m: CellState) -> nat {
    count_upto(s, m, 9)
}

/// The empty coordinates among the first `i` cells, in row-major order.
pub open spec fn moves_upto(s: Seq<CellState>, i: int) -> Seq<(usize, usize)>
    decreases i,
{
    if i <= 0 {
        Seq::empty()
    } else {
        moves_upto(s, i - 1) + (if s[i - 1] == CellState::Empty {
            seq![(((i - 1) / 3) as usize, ((i - 1) % 3) as usize)]
        } else {
            Seq::empty()
        })
    }
}

/// The 3x3 grid itself, stored row-major.
#[derive(Clone, Copy)]
pub struct Board {
    cells: [CellState; 9],
}

impl View for Board {
    type V = Seq<CellState>;

    closed spec fn view(&self) -> Seq<CellState> {
        self.cells@
    }
}

impl Board {
    /// A fresh board with every cell empty.
    pub fn new() -> (b: Board)
        ensures
            b@ == empty_board(),
    {
        let b = Board { cells: [CellState::Empty; 9] };
        proof {
            assert(b@ =~= empty_board());
        }
        b
    }

    /// The state of the cell at flat row-major index `i`.
    pub fn cell(&self, i: usize) -> (r: CellState)
        requires
            i < 9,
        ensures
            r == self@[i as int],
    {
        self.cells[i]
    }

    /// The state of the cell at (row, col).
    pub fn get(&self, row: usize, col: usize) -> (r: CellState)
        requires
            row < 3,
            col < 3,
        ensures
            r == self@[cell_index((row, col))],
    {
        self.cells[row * 3 + col]
    }

    /// Marks the cell at (row, col) if it is still empty; an occupied
    /// cell rejects the move and leaves the board unchanged.
    pub fn place(&mut self, row: usize, col: usize, mark: CellState) -> (r: Result<(), InvalidMove>)
        requires
            row < 3,
            col < 3,
            mark != CellState::Empty,
        ensures
            old(self)@[cell_index((row, col))] == CellState::Empty ==> {
                &&& r is Ok
                &&& final(self)@ == old(self)@.update(cell_index((row, col)), mark)
            },
            old(self)@[cell_index((row, col))] != CellState::Empty ==> {
                &&& r is Err
                &&& *final(self) == *old(self)
            },
    {
        let i = row * 3 + col;
        if self.cells[i] == CellState::Empty {
            self.cells[i] = mark;
            Ok(())
        } else {
            Err(InvalidMove)
        }
    }

    /// Marks the cell at (row, col) if it is still empty; an occupied
    /// cell is silently left as it is.
    pub fn set_cell(&mut self, row: usize, col: usize, state: CellState)
        requires
            row < 3,
            col < 3,
        ensures
            old(self)@[cell_index((row, col))] == CellState::Empty ==> final(self)@ == old(
                self,
            )@.update(cell_index((row, col)), state),
            old(self)@[cell_index((row, col))] != CellState::Empty ==> final(self)@ == old(self)@,
    {
        let i = row * 3 + col;
        if self.cells[i] == CellState::Empty {
            self.cells[i] = state;
        }
    }

    /// Scans the 3 rows, 3 columns, and 2 diagonals in that fixed order
    /// and reports the first line of three equal non-empty cells: its
    /// mark and its three coordinates.
    pub fn check_winner_pure(&self) -> (r: Option<(CellState, [(usize, usize); 3])>)
        ensures
            (r is None) <==> (first_won_line(self@) is None),
            r matches Some(p) ==> first_won_line(self@) matches Some(l) && {
                &&& p.0 == self@[cell_index(line_coords(l)[0])]
                &&& p.0 != CellState::Empty
                &&& winner_spec(self@) == Some(p.0)
                &&& p.1@ == line_coords(l)
            },
    {
        let c = &self.cells;
        let r: Option<(CellState, [(usize, usize); 3])> = if c[0] != CellState::Empty && c[0] == c[1]
            && c[1] == c[2] {
            Some((c[0], [(0, 0), (0, 1), (0, 2)]))
        } else if c[3] != CellState::Empty && c[3] == c[4] && c[4] == c[5] {
            Some((c[3], [(1, 0), (1, 1), (1, 2)]))
        } else if c[6] != CellState::Empty && c[6] == c[7] && c[7] == c[8] {
            Some((c[6], [(2, 0), (2, 1), (2, 2)]))
        } else if c[0] != CellState::Empty && c[0] == c[3] && c[3] == c[6] {
            Some((c[0], [(0, 0), (1, 0), (2, 0)]))
        } else if c[1] != CellState::Empty && c[1] == c[4] && c[4] == c[7] {
            Some((c[1], [(0, 1), (1, 1), (2, 1)]))
        } else if c[2] != CellState::Empty && c[2] == c[5] && c[5] == c[8] {
            Some((c[2], [(0, 2), (1, 2), (2, 2)]))
        } else if c[0] != CellState::Empty && c[0] == c[4] && c[4] == c[8] {
            Some((c[0], [(0, 0), (1, 1), (2, 2)]))
        } else if c[2] != CellState::Empty && c[2] == c[4] && c[4] == c[6] {
            Some((c[2], [(0, 2), (1, 1), (2, 0)]))
        } else {
            None
        };
        proof {
            if r is Some {
                let p = r->0;
                let l = first_won_line(self@)->0;
                assert(p.1@ =~= line_coords(l));
            }
        }
        r
    }

    /// The mark with three in a row, if any line is complete.
    pub fn winner(&self) -> (r: Option<CellState>)
        ensures
            r == winner_spec(self@),
    {
        match self.check_winner_pure() {
            Some((m, _)) => Some(m),
            None => None,
        }
    }

    /// The coordinates of the first complete line in scan order, if any.
    pub fn winning_line(&self) -> (r: Option<[(usize, usize); 3]>)
        ensures
            (r is None) <==> (first_won_line(self@) is None),
            r matches Some(cells) ==> first_won_line(self@) matches Some(l) && cells@ == line_coords(
                l,
            ),
    {
        match self.check_winner_pure() {
            Some((_, cells)) => Some(cells),
            None => None,
        }
    }

    /// True iff no empty cell remains.
    pub fn is_full(&self) -> (r: bool)
        ensures
            r == is_full_spec(self@),
    {
        let c = &self.cells;
        let r = c[0] != CellState::Empty && c[1] != CellState::Empty && c[2] != CellState::Empty
            && c[3] != CellState::Empty && c[4] != CellState::Empty && c[5] != CellState::Empty
            && c[6] != CellState::Empty && c[7] != CellState::Empty && c[8] != CellState::Empty;
        proof {
            if r {
                assert forall|j: int| 0 <= j < 9 implies self@[j] != CellState::Empty by {
                    assert(self@[0] != CellState::Empty);
                    assert(self@[1] != CellState::Empty);
                    assert(self@[2] != CellState::Empty);
                    assert(self@[3] != CellState::Empty);
                    assert(self@[4] != CellState::Empty);
                    assert(self@[5] != CellState::Empty);
                    assert(self@[6] != CellState::Empty);
                    assert(self@[7] != CellState::Empty);
                    assert(self@[8] != CellState::Empty);
                }
            }
        }
        r
    }

    /// True iff the game can go no further: a line is complete or the
    /// board is full.
    pub fn is_terminal(&self) -> (r: bool)
        ensures
            r == (winner_spec(self@) is Some || is_full_spec(self@)),
    {
        self.winner().is_some() || self.is_full()
    }

    /// Sets every cell back to empty.
    pub fn reset(&mut self)
        ensures
            final(self)@ == empty_board(),
    {
        self.cells = [CellState::Empty; 9];
        proof {
            assert(final(self)@ =~= empty_board());
        }
    }

    /// All currently empty coordinates, in row-major order.
    pub fn legal_moves(&self) -> (r: Vec<(usize, usize)>)
        ensures
            r@ == moves_upto(self@, 9),
    {
        let mut r: Vec<(usize, usize)> = Vec::new();
        let mut i: usize = 0;
        while i < 9
            invariant
                i <= 9,
                r@ == moves_upto(self@, i as int),
            decreases 9 - i,
        {
            if self.cells[i] == CellState::Empty {
                r.push((i / 3, i % 3));
                proof {
                    assert(r@ =~= moves_upto(self@, i + 1));
                }
            }
            i = i + 1;
        }
        r
    }
}

/// A board's view always has exactly nine cells.
pub broadcast proof fn lemma_board_view_len(b: Board)
    ensures
        (#[trigger] b@).len() == 9,
{
}

/// The moves that `legal_moves` reports are exactly the empty cells:
/// every coordinate listed is an empty cell of the board, and every
/// empty cell is listed.
pub proof fn lemma_legal_moves_complete(s: Seq<CellState>, row: usize, col: usize)
    requires
        row < 3,
        col < 3,
    ensures
        moves_upto(s, 9).contains((row, col)) <==> s[cell_index((row, col))] == CellState::Empty,
{
    lemma_moves_upto_membership(s, 9, row, col);
}

proof fn lemma_moves_upto_membership(s: Seq<CellState>, i: int, row: usize, col: usize)
    requires
        row < 3,
        col < 3,
        0 <= i <= 9,
    ensures
        moves_upto(s, i).contains((row, col)) <==> (cell_index((row, col)) < i && s[cell_index(
            (row, col),
        )] == CellState::Empty),
    decreases i,
{
    if i > 0 {
        lemma_moves_upto_membership(s, i - 1, row, col);
        let prev = moves_upto(s, i - 1);
        let whole = moves_upto(s, i);
        if s[i - 1] == CellState::Empty {
            assert(whole == prev + seq![(((i - 1) / 3) as usize, ((i - 1) % 3) as usize)]);
            if cell_index((row, col)) == i - 1 {
                assert(whole[whole.len() - 1] == (row, col));
                assert(whole.contains((row, col)));
            } else {
                assert forall|k: int| 0 <= k < whole.len() && whole[k] == (row, col) implies prev.contains(
                    (row, col),
                ) by {
                    if k < prev.len() {
                        assert(prev[k] == (row, col));
                    }
                }
                if prev.contains((row, col)) {
                    let k = choose|k: int| 0 <= k < prev.len() && prev[k] == (row, col);
                    assert(whole[k] == (row, col));
                }
            }
        } else {
            assert(whole =~= prev);
        }
    }
}

/// Putting one mark into a cell changes only that mark's tally: the
/// tally of `mm` grows by one if the placed mark is `mm` and the cell
/// was not already `mm`, and is otherwise unchanged.
pub proof fn lemma_count_update(s: Seq<CellState>, i: int, m: CellState, mm: CellState)
    requires
        0 <= i < 9,
        s.len() == 9,
    ensures
        count_of(s.update(i, m), mm) == count_of(s, mm) + (if m == mm {
            1nat
        } else {
            0nat
        }) - (if s[i] == mm {
            1nat
        } else {
            0nat
        }),
{
    lemma_count_upto_update(s, i, m, mm, 9);
}

proof fn lemma_count_upto_update(s: Seq<CellState>, i: int, m: CellState, mm: CellState, k: int)
    requires
        0 <= i < 9,
        s.len() == 9,
        0 <= k <= 9,
    ensures
        i < k ==> count_upto(s.update(i, m), mm, k) == count_upto(s, mm, k) + (if m == mm {
            1nat
        } else {
            0nat
        }) - (if s[i] == mm {
            1nat
        } else {
            0nat
        }),
        i >= k ==> count_upto(s.update(i, m), mm, k) == count_upto(s, mm, k),
    decreases k,
{
    if k > 0 {
        lemma_count_upto_update(s, i, m, mm, k - 1);
    }
}

/// A mark's tally never exceeds the number of cells already counted.
pub proof fn lemma_count_upto_bound(s: Seq<CellState>, m: CellState, k: int)
    requires
        0 <= k,
    ensures
        count_upto(s, m, k) <= k,
    decreases k,
{
    if k > 0 {
        lemma_count_upto_bound(s, m, k - 1);
    }
}

/// `winner()` reports a mark exactly when that mark owns a complete
/// line, as long as both marks do not own complete lines at once — in
/// a legal game at most one ever does.
pub proof fn lemma_winner_characterization(s: Seq<CellState>)
    requires
        !(wins(s, CellState::X) && wins(s, CellState::O)),
    ensures
        (winner_spec(s) is None) <==> (!wins(s, CellState::X) && !wins(s, CellState::O)),
        (winner_spec(s) == Some(CellState::X)) <==> wins(s, CellState::X),
        (winner_spec(s) == Some(CellState::O)) <==> wins(s, CellState::O),
{
}

/// After a reset the board is not full and has no winner.
pub proof fn lemma_reset_board_state(s: Seq<CellState>)
    requires
        s == empty_board(),
    ensures
        !is_full_spec(s),
        winner_spec(s) is None,
{
    assert(s[0] == CellState::Empty);
}

} // verus!
