//! The shared win-line detector: the 8 canonical lines of a 3x3 grid
//! (3 rows, 3 columns, 2 diagonals) and the test for three equal,
//! present marks on one of them.
//!
//! The detector is used at both grid levels: over a sub-board's cells
//! (projected to `Some(mark)` where non-empty) and over the meta-board's
//! sub-boards (projected to `Some(mark)` where a sub-board is won). The
//! line geometry is therefore defined exactly once, over a projection
//! `(row, col) -> Option<Mark>`.

use vstd::prelude::*;
use crate::mark::Mark;

verus! {

/// Three positions of the grid all project to the same present mark `m`.
pub open spec fn line_wins(
    g: spec_fn(int, int) -> Option<Mark>,
    r0: int,
    c0: int,
    r1: int,
    c1: int,
    r2: int,
    c2: int,
    m: Mark,
) -> bool {
    g(r0, c0) == Some(m) && g(r1, c1) == Some(m) && g(r2, c2) == Some(m)
}

/// Some canonical win-line of the 3x3 grid is filled with mark `m`:
/// one of the 3 rows, 3 columns, the main diagonal or the anti-diagonal.
pub open spec fn wins_on(g: spec_fn(int, int) -> Option<Mark>, m: Mark) -> bool {
    ||| line_wins(g, 0, 0, 0, 1, 0, 2, m)
    ||| line_wins(g, 1, 0, 1, 1, 1, 2, m)
    ||| line_wins(g, 2, 0, 2, 1, 2, 2, m)
    ||| line_wins(g, 0, 0, 1, 0, 2, 0, m)
    ||| line_wins(g, 0, 1, 1, 1, 2, 1, m)
    ||| line_wins(g, 0, 2, 1, 2, 2, 2, m)
    ||| line_wins(g, 0, 0, 1, 1, 2, 2, m)
    ||| line_wins(g, 0, 2, 1, 1, 2, 0, m)
}

/// A freshly completed win-line runs through the freshly written
/// position: when a grid without any winner changes at one position
/// only, and the new value there can only present `mark`, then any
/// winner of the changed grid is `mark`. Shared by both grid levels:
/// a move can finalize lines only for the mark it writes.
pub proof fn lemma_win_needs_changed_cell(
    g1: spec_fn(int, int) -> Option<Mark>,
    g2: spec_fn(int, int) -> Option<Mark>,
    row: int,
    col: int,
    mark: Mark,
)
    requires
        0 <= row < 3,
        0 <= col < 3,
        forall|r: int, c: int|
            0 <= r < 3 && 0 <= c < 3 && !(r == row && c == col) ==> #[trigger] g2(r, c) == g1(
                r,
                c,
            ),
        !wins_on(g1, Mark::X),
        !wins_on(g1, Mark::O),
        forall|r: int, c: int| 0 <= r < 3 && 0 <= c < 3 ==> #[trigger] g1(r, c) != Some(
            Mark::Empty,
        ),
        forall|m: Mark| g2(row, col) == Some(m) ==> m == mark,
    ensures
        forall|m: Mark| wins_on(g2, m) ==> m == mark,
{
    assert forall|m: Mark| wins_on(g2, m) implies m == mark by {
        assert(!wins_on(g1, m)) by {
            if m != Mark::X && m != Mark::O {
                assert(m == Mark::Empty);
            }
        }
        if line_wins(g2, 0, 0, 0, 1, 0, 2, m) {
            lemma_line_through_change(g1, g2, row, col, mark, 0, 0, 0, 1, 0, 2, m);
        } else if line_wins(g2, 1, 0, 1, 1, 1, 2, m) {
            lemma_line_through_change(g1, g2, row, col, mark, 1, 0, 1, 1, 1, 2, m);
        } else if line_wins(g2, 2, 0, 2, 1, 2, 2, m) {
            lemma_line_through_change(g1, g2, row, col, mark, 2, 0, 2, 1, 2, 2, m);
        } else if line_wins(g2, 0, 0, 1, 0, 2, 0, m) {
            lemma_line_through_change(g1, g2, row, col, mark, 0, 0, 1, 0, 2, 0, m);
        } else if line_wins(g2, 0, 1, 1, 1, 2, 1, m) {
            lemma_line_through_change(g1, g2, row, col, mark, 0, 1, 1, 1, 2, 1, m);
        } else if line_wins(g2, 0, 2, 1, 2, 2, 2, m) {
            lemma_line_through_change(g1, g2, row, col, mark, 0, 2, 1, 2, 2, 2, m);
        } else if line_wins(g2, 0, 0, 1, 1, 2, 2, m) {
            lemma_line_through_change(g1, g2, row, col, mark, 0, 0, 1, 1, 2, 2, m);
        } else {
            lemma_line_through_change(g1, g2, row, col, mark, 0, 2, 1, 1, 2, 0, m);
        }
    }
}

/// One line of the case analysis behind `lemma_win_needs_changed_cell`:
/// a line filled in the changed grid but not in the unchanged one must
/// run through the changed position, whose value can only present `mark`.
proof fn lemma_line_through_change(
    g1: spec_fn(int, int) -> Option<Mark>,
    g2: spec_fn(int, int) -> Option<Mark>,
    row: int,
    col: int,
    mark: Mark,
    r0: int,
    c0: int,
    r1: int,
    c1: int,
    r2: int,
    c2: int,
    m: Mark,
)
    requires
        0 <= r0 < 3 && 0 <= c0 < 3 && 0 <= r1 < 3 && 0 <= c1 < 3 && 0 <= r2 < 3 && 0 <= c2 < 3,
        forall|r: int, c: int|
            0 <= r < 3 && 0 <= c < 3 && !(r == row && c == col) ==> #[trigger] g2(r, c) == g1(
                r,
                c,
            ),
        g2(row, col) == Some(m) ==> m == mark,
        line_wins(g2, r0, c0, r1, c1, r2, c2, m),
        !line_wins(g1, r0, c0, r1, c1, r2, c2, m),
    ensures
        m == mark,
{
    if !((r0 == row && c0 == col) || (r1 == row && c1 == col) || (r2 == row && c2 == col)) {
        assert(g2(r0, c0) == g1(r0, c0));
        assert(g2(r1, c1) == g1(r1, c1));
        assert(g2(r2, c2) == g1(r2, c2));
    }
}

/// The projection a 3x3 grid of already-projected values denotes.
pub open spec fn grid_fn(grid: [[Option<Mark>; 3]; 3]) -> spec_fn(int, int) -> Option<Mark> {
    |r: int, c: int| grid@[r]@[c]
}

/// The value of one line of `grid`: `Some(m)` exactly when all three
/// positions hold the same present mark `m`.
fn line_of(
    grid: &[[Option<Mark>; 3]; 3],
    r0: usize,
    c0: usize,
    r1: usize,
    c1: usize,
    r2: usize,
    c2: usize,
) -> (res: Option<Mark>)
    requires
        r0 < 3 && c0 < 3 && r1 < 3 && c1 < 3 && r2 < 3 && c2 < 3,
    ensures
        res matches Some(m) ==> line_wins(
            grid_fn(*grid),
            r0 as int,
            c0 as int,
            r1 as int,
            c1 as int,
            r2 as int,
            c2 as int,
            m,
        ),
        res is None ==> forall|m: Mark|
            !line_wins(
                grid_fn(*grid),
                r0 as int,
                c0 as int,
                r1 as int,
                c1 as int,
                r2 as int,
                c2 as int,
                m,
            ),
{
    match (grid[r0][c0], grid[r1][c1], grid[r2][c2]) {
        (Some(a), Some(b), Some(c)) => if a == b && b == c {
            Some(a)
        } else {
            None
        },
        _ => None,
    }
}

/// Scans the 8 canonical lines of a projected 3x3 grid and returns the
/// mark of a filled line, or `None` when no line is filled. Exact: the
/// result is `Some` if and only if some mark wins on the grid.
pub fn check_winner(grid: &[[Option<Mark>; 3]; 3]) -> (res: Option<Mark>)
    ensures
        res matches Some(m) ==> wins_on(grid_fn(*grid), m),
        res is None ==> forall|m: Mark| !wins_on(grid_fn(*grid), m),
{
    let l0 = line_of(grid, 0, 0, 0, 1, 0, 2);
    if l0.is_some() {
        return l0;
    }
    let l1 = line_of(grid, 1, 0, 1, 1, 1, 2);
    if l1.is_some() {
        return l1;
    }
    let l2 = line_of(grid, 2, 0, 2, 1, 2, 2);
    if l2.is_some() {
        return l2;
    }
    let l3 = line_of(grid, 0, 0, 1, 0, 2, 0);
    if l3.is_some() {
        return l3;
    }
    let l4 = line_of(grid, 0, 1, 1, 1, 2, 1);
    if l4.is_some() {
        return l4;
    }
    let l5 = line_of(grid, 0, 2, 1, 2, 2, 2);
    if l5.is_some() {
        return l5;
    }
    let l6 = line_of(grid, 0, 0, 1, 1, 2, 2);
    if l6.is_some() {
        return l6;
    }
    let l7 = line_of(grid, 0, 2, 1, 1, 2, 0);
    if l7.is_some() {
        return l7;
    }
    None
}

} // verus!
