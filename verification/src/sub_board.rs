//! A single 3x3 tic-tac-toe sub-board: nine cells and the board's own
//! outcome, kept consistent with the cells at all times.

use vstd::prelude::*;
use crate::mark::{Mark, Outcome};
use crate::lines::{wins_on, grid_fn, lemma_win_needs_changed_cell};

verus! {

/// The projection of a 3x3 grid of cells for the win-line detector:
/// a mark is present exactly where the cell is non-empty.
pub open spec fn cells_proj(cells: [[Mark; 3]; 3]) -> spec_fn(int, int) -> Option<Mark> {
    |r: int, c: int|
        if cells@[r]@[c] == Mark::Empty {
            None
        } else {
            Some(cells@[r]@[c])
        }
}

/// Every cell of the grid holds a mark.
pub open spec fn cells_full(cells: [[Mark; 3]; 3]) -> bool {
    forall|r: int, c: int| 0 <= r < 3 && 0 <= c < 3 ==> cells@[r]@[c] != Mark::Empty
}

/// The winner of a grid of cells, if one of the 8 canonical lines is
/// filled with a single mark.
fn winner_of_cells(cells: &[[Mark; 3]; 3]) -> (res: Option<Mark>)
    ensures
        res matches Some(m) ==> wins_on(cells_proj(*cells), m),
        res is None ==> forall|m: Mark| !wins_on(cells_proj(*cells), m),
{
    let grid: [[Option<Mark>; 3]; 3] = [
        [proj_cell(cells, 0, 0), proj_cell(cells, 0, 1), proj_cell(cells, 0, 2)],
        [proj_cell(cells, 1, 0), proj_cell(cells, 1, 1), proj_cell(cells, 1, 2)],
        [proj_cell(cells, 2, 0), proj_cell(cells, 2, 1), proj_cell(cells, 2, 2)],
    ];
    let res = crate::lines::check_winner(&grid);
    proof {
        assert(forall|m: Mark| wins_on(grid_fn(grid), m) == wins_on(cells_proj(*cells), m));
    }
    res
}

/// One projected cell value, as `cells_proj` defines it.
fn proj_cell(cells: &[[Mark; 3]; 3], r: usize, c: usize) -> (res: Option<Mark>)
    requires
        r < 3,
        c < 3,
    ensures
        res == cells_proj(*cells)(r as int, c as int),
{
    let row_arr = cells[r];
    let m = row_arr[c];
    if m == Mark::Empty {
        None
    } else {
        Some(m)
    }
}

/// Whether every cell of the grid holds a mark.
#[verifier::loop_isolation(false)]
fn full_cells(cells: &[[Mark; 3]; 3]) -> (r: bool)
    ensures
        r == cells_full(*cells),
{
    for row in 0..3
        invariant
            forall|a: int, b: int| 0 <= a < row && 0 <= b < 3 ==> cells@[a]@[b] != Mark::Empty,
    {
        for col in 0..3
            invariant
                forall|a: int, b: int| 0 <= a < row && 0 <= b < 3 ==> cells@[a]@[b] != Mark::Empty,
                forall|b: int| 0 <= b < col ==> cells@[row as int]@[b] != Mark::Empty,
        {
            let row_arr = cells[row];
            if row_arr[col] == Mark::Empty {
                return false;
            }
        }
    }
    true
}

/// One of the nine independent 3x3 boards composing the meta-board.
#[derive(Clone, Copy, Debug, PartialEq)]
pub struct SubBoard {
    cells: [[Mark; 3]; 3],
    outcome: Outcome,
}

impl SubBoard {
    /// The mark in cell (r, c).
    pub closed spec fn spec_cell(self, r: int, c: int) -> Mark {
        self.cells@[r]@[c]
    }

    /// The sub-board's own outcome.
    pub closed spec fn spec_outcome(self) -> Outcome {
        self.outcome
    }

    /// The projection the win-line detector runs over, stated over the
    /// public cell accessor: a mark is present exactly where the cell is
    /// non-empty.
    pub open spec fn proj(self) -> spec_fn(int, int) -> Option<Mark> {
        |r: int, c: int|
            if self.spec_cell(r, c) == Mark::Empty {
                None
            } else {
                Some(self.spec_cell(r, c))
            }
    }

    /// Mark `m` holds a full win-line of this sub-board's cells.
    pub closed spec fn has_win(self, m: Mark) -> bool {
        wins_on(cells_proj(self.cells), m)
    }

    /// `has_win` is the shared win-line geometry over this board's cells.
    pub proof fn lemma_has_win_meaning(self, m: Mark)
        ensures
            self.has_win(m) == wins_on(self.proj(), m),
    {
        assert forall|r: int, c: int| 0 <= r < 3 && 0 <= c < 3 implies #[trigger] cells_proj(
            self.cells,
        )(r, c) == self.proj()(r, c) by {}
    }

    /// Every cell holds a mark.
    pub closed spec fn spec_full(self) -> bool {
        cells_full(self.cells)
    }

    /// `spec_full` says exactly that no cell is still empty.
    pub proof fn lemma_full_meaning(self)
        ensures
            self.spec_full() == forall|r: int, c: int|
                0 <= r < 3 && 0 <= c < 3 ==> #[trigger] self.spec_cell(r, c) != Mark::Empty,
    {
        if cells_full(self.cells) {
            assert forall|r: int, c: int| 0 <= r < 3 && 0 <= c < 3 implies #[trigger] self.spec_cell(
                r,
                c,
            ) != Mark::Empty by {
                assert(self.cells@[r]@[c] != Mark::Empty);
            }
        }
        if forall|r: int, c: int|
            0 <= r < 3 && 0 <= c < 3 ==> #[trigger] self.spec_cell(r, c) != Mark::Empty {
            assert forall|r: int, c: int| 0 <= r < 3 && 0 <= c < 3 implies #[trigger] self.cells@[r]@[c]
                != Mark::Empty by {
                assert(self.spec_cell(r, c) != Mark::Empty);
            }
            assert(cells_full(self.cells));
        }
    }

    /// The outcome is what the cells owe: a win exactly while a line is
    /// filled, a draw when full without a winner, in progress only while
    /// no line is filled and room to play remains.
    #[verifier::type_invariant]
    pub closed spec fn wf(self) -> bool {
        match self.outcome {
            Outcome::InProgress => !self.has_win(Mark::X) && !self.has_win(Mark::O)
                && !self.spec_full(),
            Outcome::Win(m) => m != Mark::Empty && self.has_win(m),
            Outcome::Draw => self.spec_full() && !self.has_win(Mark::X) && !self.has_win(
                Mark::O,
            ),
        }
    }

    /// A move at (row, col) is accepted: coordinates in range, board
    /// unresolved, target cell empty.
    pub open spec fn move_ok(self, row: int, col: int) -> bool {
        &&& 0 <= row < 3
        &&& 0 <= col < 3
        &&& self.spec_outcome() is InProgress
        &&& self.spec_cell(row, col) == Mark::Empty
    }

    /// How a successful move at (row, col) with `mark` rewrites the board:
    /// exactly the played cell changes, and the outcome is re-derived from
    /// the new cells.
    pub open spec fn play_transition(pre: SubBoard, post: SubBoard, row: int, col: int, mark: Mark) -> bool {
        &&& forall|r: int, c: int|
            0 <= r < 3 && 0 <= c < 3 ==> post.spec_cell(r, c) == (if r == row && c == col {
                mark
            } else {
                pre.spec_cell(r, c)
            })
        &&& post.spec_outcome() == (if post.has_win(mark) {
            Outcome::Win(mark)
        } else if post.spec_full() {
            Outcome::Draw
        } else {
            Outcome::InProgress
        })
    }

    /// A well-formed board's recorded winner is a real player's mark with
    /// a filled line.
    pub proof fn lemma_winner_real(self)
        requires
            self.wf(),
        ensures
            self.spec_outcome() matches Outcome::Win(m) ==> m != Mark::Empty && self.has_win(m),
    {
    }

    /// An unresolved well-formed board has no winner yet and room to play.
    pub proof fn lemma_in_progress_open(self)
        requires
            self.wf(),
            self.spec_outcome() is InProgress,
        ensures
            !self.spec_full(),
            !self.has_win(Mark::X),
            !self.has_win(Mark::O),
            exists|r: int, c: int|
                0 <= r < 3 && 0 <= c < 3 && self.spec_cell(r, c) == Mark::Empty,
    {
        assert(!cells_full(self.cells));
        let (r, c) = choose|r: int, c: int|
            !(0 <= r < 3 && 0 <= c < 3 ==> self.cells@[r]@[c] != Mark::Empty);
        assert(0 <= r < 3 && 0 <= c < 3 && self.spec_cell(r, c) == Mark::Empty);
    }

    /// A fresh, fully empty, unresolved sub-board.
    pub fn new() -> (s: SubBoard)
        ensures
            forall|r: int, c: int| 0 <= r < 3 && 0 <= c < 3 ==> s.spec_cell(r, c) == Mark::Empty,
            s.spec_outcome() is InProgress,
    {
        SubBoard { cells: [[Mark::Empty; 3]; 3], outcome: Outcome::InProgress }
    }

    /// The mark in cell (row, col).
    pub fn cell(&self, row: usize, col: usize) -> (m: Mark)
        requires
            row < 3,
            col < 3,
        ensures
            m == self.spec_cell(row as int, col as int),
    {
        let row_arr = self.cells[row];
        row_arr[col]
    }

    /// The sub-board's outcome.
    pub fn outcome(&self) -> (o: Outcome)
        ensures
            o == self.spec_outcome(),
    {
        self.outcome
    }

    /// The winner of this sub-board, if a line of its cells is filled.
    pub fn check_winner(&self) -> (res: Option<Mark>)
        ensures
            res matches Some(m) ==> self.has_win(m),
            res is None ==> forall|m: Mark| !self.has_win(m),
    {
        winner_of_cells(&self.cells)
    }

    /// Whether all nine cells hold a mark.
    pub fn is_full(&self) -> (r: bool)
        ensures
            r == self.spec_full(),
    {
        full_cells(&self.cells)
    }

    /// Applies a move: fails (returns false, no change) when the move is
    /// not accepted; otherwise writes the cell and re-derives the outcome.
    pub fn play(&mut self, row: usize, col: usize, mark: Mark) -> (ok: bool)
        ensures
            ok == old(self).move_ok(row as int, col as int),
            !ok ==> *final(self) == *old(self),
            ok ==> Self::play_transition(*old(self), *final(self), row as int, col as int, mark),
    {
        proof {
            use_type_invariant(&*self);
        }
        if row >= 3 || col >= 3 {
            return false;
        }
        if self.outcome != Outcome::InProgress {
            return false;
        }
        let mut row_arr = self.cells[row];
        if row_arr[col] != Mark::Empty {
            return false;
        }
        row_arr[col] = mark;
        let mut cells = self.cells;
        cells[row] = row_arr;
        proof {
            assert(forall|r: int, c: int|
                0 <= r < 3 && 0 <= c < 3 ==> #[trigger] cells_proj(old(self).cells)(r, c)
                    != Some(Mark::Empty));
            lemma_win_needs_changed_cell(
                cells_proj(old(self).cells),
                cells_proj(cells),
                row as int,
                col as int,
                mark,
            );
        }
        let outcome = match winner_of_cells(&cells) {
            Some(w) => Outcome::Win(w),
            None => if full_cells(&cells) {
                Outcome::Draw
            } else {
                Outcome::InProgress
            },
        };
        *self = SubBoard { cells, outcome };
        true
    }
}

} // verus!
