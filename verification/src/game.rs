//! The meta-game: a 3x3 grid of sub-boards plus turn state and the
//! active-sub-board constraint. `play` is the single mutating entry
//! point; every query is side-effect free.

use vstd::prelude::*;
use crate::mark::{Mark, Outcome};
use crate::sub_board::SubBoard;
use crate::lines::{wins_on, grid_fn, lemma_win_needs_changed_cell};

verus! {

/// The projection of the meta-board for the win-line detector: a
/// sub-board presents its winner's mark once won, nothing otherwise.
pub open spec fn subs_proj(subs: [[SubBoard; 3]; 3]) -> spec_fn(int, int) -> Option<Mark> {
    |r: int, c: int|
        match subs@[r]@[c].spec_outcome() {
            Outcome::Win(m) => Some(m),
            _ => None,
        }
}

/// Every sub-board of the grid is resolved (not in progress).
pub open spec fn subs_resolved(subs: [[SubBoard; 3]; 3]) -> bool {
    forall|r: int, c: int|
        0 <= r < 3 && 0 <= c < 3 ==> !((#[trigger] subs@[r]@[c]).spec_outcome() is InProgress)
}

/// One projected sub-board value, as `subs_proj` defines it.
fn proj_sub(subs: &[[SubBoard; 3]; 3], r: usize, c: usize) -> (res: Option<Mark>)
    requires
        r < 3,
        c < 3,
    ensures
        res == subs_proj(*subs)(r as int, c as int),
{
    let row_arr = subs[r];
    let s = row_arr[c];
    match s.outcome() {
        Outcome::Win(m) => Some(m),
        _ => None,
    }
}

/// The meta-winner of a grid of sub-boards, if a line of won sub-boards
/// with a single mark is filled.
fn winner_of_subs(subs: &[[SubBoard; 3]; 3]) -> (res: Option<Mark>)
    ensures
        res matches Some(m) ==> wins_on(subs_proj(*subs), m),
        res is None ==> forall|m: Mark| !wins_on(subs_proj(*subs), m),
{
    let grid: [[Option<Mark>; 3]; 3] = [
        [proj_sub(subs, 0, 0), proj_sub(subs, 0, 1), proj_sub(subs, 0, 2)],
        [proj_sub(subs, 1, 0), proj_sub(subs, 1, 1), proj_sub(subs, 1, 2)],
        [proj_sub(subs, 2, 0), proj_sub(subs, 2, 1), proj_sub(subs, 2, 2)],
    ];
    let res = crate::lines::check_winner(&grid);
    proof {
        assert(forall|m: Mark| wins_on(grid_fn(grid), m) == wins_on(subs_proj(*subs), m));
    }
    res
}

/// Whether every sub-board of the grid is resolved.
#[verifier::loop_isolation(false)]
fn all_subs_resolved(subs: &[[SubBoard; 3]; 3]) -> (r: bool)
    ensures
        r == subs_resolved(*subs),
{
    for row in 0..3
        invariant
            forall|a: int, b: int|
                0 <= a < row && 0 <= b < 3 ==> !((#[trigger] subs@[a]@[b]).spec_outcome()
                    is InProgress),
    {
        for col in 0..3
            invariant
                forall|a: int, b: int|
                    0 <= a < row && 0 <= b < 3 ==> !((#[trigger] subs@[a]@[b]).spec_outcome()
                        is InProgress),
                forall|b: int|
                    0 <= b < col ==> !((#[trigger] subs@[row as int]@[b]).spec_outcome()
                        is InProgress),
        {
            let row_arr = subs[row];
            let s = row_arr[col];
            if s.outcome() == Outcome::InProgress {
                return false;
            }
        }
    }
    true
}

/// The 3x3 grid of sub-boards together with the aggregated outcome.
#[derive(Clone, Copy, Debug, PartialEq)]
pub struct Board {
    sub_boards: [[SubBoard; 3]; 3],
    outcome: Outcome,
}

impl Board {
    /// A fresh meta-board: nine empty, unresolved sub-boards.
    fn new() -> (b: Board)
        ensures
            forall|r: int, c: int, u: int, v: int|
                0 <= r < 3 && 0 <= c < 3 && 0 <= u < 3 && 0 <= v < 3 ==> b.spec_sub(r, c).spec_cell(
                    u,
                    v,
                ) == Mark::Empty,
            forall|r: int, c: int|
                0 <= r < 3 && 0 <= c < 3 ==> (#[trigger] b.spec_sub(r, c)).spec_outcome()
                    is InProgress,
            forall|r: int, c: int|
                0 <= r < 3 && 0 <= c < 3 ==> (#[trigger] b.spec_sub(r, c)).wf(),
            b.spec_outcome() is InProgress,
    {
        let sb = SubBoard::new();
        proof {
            use_type_invariant(&sb);
        }
        Board { sub_boards: [[sb; 3]; 3], outcome: Outcome::InProgress }
    }

    /// The sub-board at meta-position (r, c).
    pub closed spec fn spec_sub(self, r: int, c: int) -> SubBoard {
        self.sub_boards@[r]@[c]
    }

    /// The aggregated outcome of the meta-board.
    pub closed spec fn spec_outcome(self) -> Outcome {
        self.outcome
    }
}

/// The full state of one match: the meta-board, whose turn it is, and
/// which sub-board the next move is constrained to, if any.
#[derive(Clone, Copy, Debug, PartialEq)]
pub struct Game {
    board: Board,
    current_turn: Mark,
    active_sub_board: Option<(usize, usize)>,
}

impl Game {
    /// The sub-board at meta-position (mr, mc).
    pub closed spec fn spec_sub(self, mr: int, mc: int) -> SubBoard {
        self.board.spec_sub(mr, mc)
    }

    /// The mark in cell (r, c) of sub-board (mr, mc).
    pub open spec fn spec_cell(self, mr: int, mc: int, r: int, c: int) -> Mark {
        self.spec_sub(mr, mc).spec_cell(r, c)
    }

    /// The meta-game's overall outcome.
    pub closed spec fn spec_outcome(self) -> Outcome {
        self.board.spec_outcome()
    }

    /// The mark to move, or `Empty` once the match is over.
    pub closed spec fn spec_turn(self) -> Mark {
        self.current_turn
    }

    /// The meta-coordinate the next move is constrained to, if any.
    pub closed spec fn spec_active(self) -> Option<(int, int)> {
        match self.active_sub_board {
            Some((r, c)) => Some((r as int, c as int)),
            None => None,
        }
    }

    /// The meta-board as the win-line detector sees it: each won
    /// sub-board presents its winner's mark, as `subs_proj` defines it.
    pub closed spec fn meta_proj(self) -> spec_fn(int, int) -> Option<Mark> {
        subs_proj(self.board.sub_boards)
    }

    /// `meta_proj` presents exactly the sub-board winners.
    pub proof fn lemma_meta_proj_points(self, r: int, c: int)
        requires
            0 <= r < 3,
            0 <= c < 3,
        ensures
            self.meta_proj()(r, c) == (match self.spec_sub(r, c).spec_outcome() {
                Outcome::Win(m) => Some(m),
                _ => None,
            }),
    {
    }

    /// Mark `m` holds a full line of won sub-boards.
    pub open spec fn meta_has_win(self, m: Mark) -> bool {
        wins_on(self.meta_proj(), m)
    }

    /// Every sub-board is resolved, as `subs_resolved` defines it.
    pub closed spec fn meta_full(self) -> bool {
        subs_resolved(self.board.sub_boards)
    }

    /// `meta_full` says exactly that no sub-board is still in progress.
    pub proof fn lemma_meta_full_meaning(self)
        ensures
            self.meta_full() == forall|r: int, c: int|
                0 <= r < 3 && 0 <= c < 3 ==> !((#[trigger] self.spec_sub(r, c)).spec_outcome()
                    is InProgress),
    {
        if subs_resolved(self.board.sub_boards) {
            assert forall|r: int, c: int| 0 <= r < 3 && 0 <= c < 3 implies !((
            #[trigger] self.spec_sub(r, c)).spec_outcome() is InProgress) by {
                assert(!(self.board.sub_boards@[r]@[c].spec_outcome() is InProgress));
            }
        }
        if forall|r: int, c: int|
            0 <= r < 3 && 0 <= c < 3 ==> !((#[trigger] self.spec_sub(r, c)).spec_outcome()
                is InProgress) {
            assert forall|r: int, c: int| 0 <= r < 3 && 0 <= c < 3 implies !((
            #[trigger] self.board.sub_boards@[r]@[c]).spec_outcome() is InProgress) by {
                assert(!(self.spec_sub(r, c).spec_outcome() is InProgress));
            }
        }
    }

    /// Global consistency of a match state: every sub-board is
    /// well-formed; the overall outcome is what the sub-boards owe; the
    /// turn is a real player exactly while the match runs, and neutral
    /// once it is over; the active constraint, when set, points at an
    /// unresolved sub-board of a running match.
    #[verifier::type_invariant]
    pub closed spec fn wf(self) -> bool {
        &&& forall|r: int, c: int|
            0 <= r < 3 && 0 <= c < 3 ==> (#[trigger] self.spec_sub(r, c)).wf()
        &&& match self.board.outcome {
            Outcome::InProgress => !self.meta_has_win(Mark::X) && !self.meta_has_win(Mark::O)
                && !self.meta_full() && (self.current_turn == Mark::X || self.current_turn
                == Mark::O),
            Outcome::Win(m) => m != Mark::Empty && self.meta_has_win(m) && self.current_turn
                == Mark::Empty && self.active_sub_board is None,
            Outcome::Draw => self.meta_full() && !self.meta_has_win(Mark::X)
                && !self.meta_has_win(Mark::O) && self.current_turn == Mark::Empty
                && self.active_sub_board is None,
        }
        &&& match self.spec_active() {
            Some((r, c)) => 0 <= r < 3 && 0 <= c < 3 && self.spec_sub(r, c).spec_outcome()
                is InProgress,
            None => true,
        }
    }

    /// A move is legal: coordinates in range, match still running, the
    /// targeted sub-board matches the active constraint and itself
    /// accepts the move (unresolved, cell empty).
    pub open spec fn is_legal_move(self, mr: int, mc: int, r: int, c: int) -> bool {
        &&& 0 <= mr < 3
        &&& 0 <= mc < 3
        &&& self.spec_outcome() is InProgress
        &&& match self.spec_active() {
            Some((ar, ac)) => mr == ar && mc == ac,
            None => true,
        }
        &&& self.spec_sub(mr, mc).move_ok(r, c)
    }

    /// `is_legal_move` over a packed move tuple.
    pub open spec fn is_legal_tuple(self, t: (usize, usize, usize, usize)) -> bool {
        self.is_legal_move(t.0 as int, t.1 as int, t.2 as int, t.3 as int)
    }

    /// The row-major rank of a move tuple over the whole board.
    pub open spec fn move_key(t: (usize, usize, usize, usize)) -> int {
        t.0 * 27 + t.1 * 9 + t.2 * 3 + t.3
    }

    /// How a successful move at cell (r, c) of sub-board (mr, mc)
    /// rewrites the match: the targeted sub-board takes the move with the
    /// mover's mark and no other sub-board changes; the overall outcome
    /// is re-derived; while the match goes on, the turn passes to the
    /// other player and the send-to rule derives the next constraint from
    /// the just-played local cell; once it is over, the turn goes neutral
    /// and the constraint is cleared.
    pub open spec fn play_transition(pre: Game, post: Game, mr: int, mc: int, r: int, c: int) -> bool {
        let mark = pre.spec_turn();
        &&& SubBoard::play_transition(pre.spec_sub(mr, mc), post.spec_sub(mr, mc), r, c, mark)
        &&& forall|a: int, b: int|
            0 <= a < 3 && 0 <= b < 3 && !(a == mr && b == mc) ==> #[trigger] post.spec_sub(a, b)
                == pre.spec_sub(a, b)
        &&& post.spec_outcome() == (if post.meta_has_win(mark) {
            Outcome::Win(mark)
        } else if post.meta_full() {
            Outcome::Draw
        } else {
            Outcome::InProgress
        })
        &&& if post.spec_outcome() is InProgress {
            &&& post.spec_turn() == mark.spec_next()
            &&& post.spec_active() == (if post.spec_sub(r, c).spec_outcome() is InProgress {
                Some((r, c))
            } else {
                None::<(int, int)>
            })
        } else {
            &&& post.spec_turn() == Mark::Empty
            &&& post.spec_active() is None
        }
    }

    /// The whole behaviour of `play`: the transition on a legal move, no
    /// change at all otherwise.
    pub open spec fn play_step(pre: Game, post: Game, mr: int, mc: int, r: int, c: int) -> bool {
        if pre.is_legal_move(mr, mc, r, c) {
            Self::play_transition(pre, post, mr, mc, r, c)
        } else {
            post == pre
        }
    }

    /// A fresh match: all cells empty, everything in progress, X to move,
    /// no constraint.
    pub fn new() -> (g: Game)
        ensures
            forall|mr: int, mc: int, r: int, c: int|
                0 <= mr < 3 && 0 <= mc < 3 && 0 <= r < 3 && 0 <= c < 3 ==> g.spec_cell(
                    mr,
                    mc,
                    r,
                    c,
                ) == Mark::Empty,
            forall|mr: int, mc: int|
                0 <= mr < 3 && 0 <= mc < 3 ==> (#[trigger] g.spec_sub(mr, mc)).spec_outcome()
                    is InProgress,
            g.spec_outcome() is InProgress,
            g.spec_turn() == Mark::X,
            g.spec_active() is None,
    {
        let board = Board::new();
        proof {
            assert forall|r: int, c: int| 0 <= r < 3 && 0 <= c < 3 implies #[trigger] subs_proj(
                board.sub_boards,
            )(r, c) == None::<Mark> by {
                assert(board.spec_sub(r, c).spec_outcome() is InProgress);
            }
            assert(forall|m: Mark| !wins_on(subs_proj(board.sub_boards), m));
            assert(!subs_resolved(board.sub_boards)) by {
                assert(board.spec_sub(0, 0).spec_outcome() is InProgress);
            }
        }
        Game { board, current_turn: Mark::X, active_sub_board: None }
    }

    /// The mark whose turn it is, or `Empty` once the match is over.
    pub fn current_turn(&self) -> (m: Mark)
        ensures
            m == self.spec_turn(),
    {
        self.current_turn
    }

    /// The meta-game's overall outcome.
    pub fn outcome(&self) -> (o: Outcome)
        ensures
            o == self.spec_outcome(),
    {
        self.board.outcome
    }

    /// The constraint on the next move, if one is set.
    pub fn active_sub_board(&self) -> (a: Option<(usize, usize)>)
        ensures
            a matches Some(p) ==> self.spec_active() == Some((p.0 as int, p.1 as int)),
            a is None ==> self.spec_active() is None,
    {
        self.active_sub_board
    }

    /// The outcome of sub-board (mr, mc).
    pub fn sub_board_outcome(&self, mr: usize, mc: usize) -> (o: Outcome)
        requires
            mr < 3,
            mc < 3,
        ensures
            o == self.spec_sub(mr as int, mc as int).spec_outcome(),
    {
        let row_arr = self.board.sub_boards[mr];
        let s = row_arr[mc];
        s.outcome()
    }

    /// The mark in cell (r, c) of sub-board (mr, mc).
    pub fn cell(&self, mr: usize, mc: usize, r: usize, c: usize) -> (m: Mark)
        requires
            mr < 3,
            mc < 3,
            r < 3,
            c < 3,
        ensures
            m == self.spec_cell(mr as int, mc as int, r as int, c as int),
    {
        let row_arr = self.board.sub_boards[mr];
        let s = row_arr[mc];
        s.cell(r, c)
    }

    /// The meta-winner, if a line of won sub-boards is filled.
    pub fn check_winner(&self) -> (res: Option<Mark>)
        ensures
            res matches Some(m) ==> self.meta_has_win(m),
            res is None ==> forall|m: Mark| !self.meta_has_win(m),
    {
        winner_of_subs(&self.board.sub_boards)
    }

    /// Whether every sub-board is resolved.
    pub fn is_full(&self) -> (r: bool)
        ensures
            r == self.meta_full(),
    {
        all_subs_resolved(&self.board.sub_boards)
    }

    /// Cells are write-once: no step of `play`, legal or not, rewrites a
    /// cell that already holds a mark. Chained over the successive steps
    /// of a match, a cell's mark, once set, never changes.
    pub proof fn lemma_cells_write_once(
        pre: Game,
        post: Game,
        mr: int,
        mc: int,
        r: int,
        c: int,
        a: int,
        b: int,
        u: int,
        v: int,
    )
        requires
            Game::play_step(pre, post, mr, mc, r, c),
            0 <= a < 3,
            0 <= b < 3,
            0 <= u < 3,
            0 <= v < 3,
            pre.spec_cell(a, b, u, v) != Mark::Empty,
        ensures
            post.spec_cell(a, b, u, v) == pre.spec_cell(a, b, u, v),
    {
    }

    /// A sub-board's outcome, once resolved, never changes for the rest
    /// of the match: no step of `play` touches it.
    pub proof fn lemma_sub_outcome_stable(
        pre: Game,
        post: Game,
        mr: int,
        mc: int,
        r: int,
        c: int,
        a: int,
        b: int,
    )
        requires
            Game::play_step(pre, post, mr, mc, r, c),
            0 <= a < 3,
            0 <= b < 3,
            !(pre.spec_sub(a, b).spec_outcome() is InProgress),
        ensures
            post.spec_sub(a, b).spec_outcome() == pre.spec_sub(a, b).spec_outcome(),
    {
    }

    /// A finished match is final: once the meta-game's outcome is no
    /// longer `InProgress`, every call of `play`, with any arguments, is
    /// illegal (returns false) and changes nothing, so the outcome never
    /// changes either.
    pub proof fn lemma_terminal_is_final(
        pre: Game,
        post: Game,
        mr: int,
        mc: int,
        r: int,
        c: int,
    )
        requires
            Game::play_step(pre, post, mr, mc, r, c),
            !(pre.spec_outcome() is InProgress),
        ensures
            post == pre,
            !pre.is_legal_move(mr, mc, r, c),
    {
    }

    /// The send-to rule: after a legal move at local cell (r, c) that
    /// leaves the match running, the next move is constrained to
    /// sub-board (r, c) when that sub-board is still in progress, and
    /// unconstrained (free choice) otherwise.
    pub proof fn lemma_send_to_rule(pre: Game, post: Game, mr: int, mc: int, r: int, c: int)
        requires
            pre.is_legal_move(mr, mc, r, c),
            Game::play_step(pre, post, mr, mc, r, c),
            post.spec_outcome() is InProgress,
        ensures
            post.spec_active() == (if post.spec_sub(r, c).spec_outcome() is InProgress {
                Some((r, c))
            } else {
                None::<(int, int)>
            }),
    {
    }

    /// All legal moves (meta_row, meta_col, row, col), in row-major order
    /// over the meta-board and then row-major over each sub-board's cells.
    /// Exact: the vector holds every legal move and nothing else, in
    /// strictly increasing row-major rank; and it is empty exactly when
    /// the meta-game's outcome is no longer `InProgress`.
    #[verifier::loop_isolation(false)]
    pub fn legal_moves(&self) -> (moves: Vec<(usize, usize, usize, usize)>)
        ensures
            forall|i: int| 0 <= i < moves@.len() ==> self.is_legal_tuple(#[trigger] moves@[i]),
            forall|t: (usize, usize, usize, usize)| #[trigger] self.is_legal_tuple(t)
                ==> moves@.contains(t),
            forall|i: int, j: int|
                0 <= i < j < moves@.len() ==> Self::move_key(moves@[i]) < Self::move_key(
                    moves@[j],
                ),
            (moves@.len() == 0) == !(self.spec_outcome() is InProgress),
    {
        proof {
            use_type_invariant(&*self);
        }
        let mut moves: Vec<(usize, usize, usize, usize)> = Vec::new();
        if self.outcome() != Outcome::InProgress {
            return moves;
        }
        for mr in 0..3
            invariant
                forall|i: int| 0 <= i < moves@.len() ==> self.is_legal_tuple(#[trigger] moves@[i]),
                forall|i: int|
                    0 <= i < moves@.len() ==> Self::move_key(#[trigger] moves@[i]) < 27 * (mr as int),
                forall|i: int, j: int|
                    0 <= i < j < moves@.len() ==> Self::move_key(moves@[i]) < Self::move_key(
                        moves@[j],
                    ),
                forall|t: (usize, usize, usize, usize)|
                    #[trigger] self.is_legal_tuple(t) && t.0 < mr ==> moves@.contains(t),
        {
            for mc in 0..3
                invariant
                    forall|i: int|
                        0 <= i < moves@.len() ==> self.is_legal_tuple(#[trigger] moves@[i]),
                    forall|i: int|
                        0 <= i < moves@.len() ==> Self::move_key(#[trigger] moves@[i]) < 27 * (mr as int)
                            + 9 * (mc as int),
                    forall|i: int, j: int|
                        0 <= i < j < moves@.len() ==> Self::move_key(moves@[i]) < Self::move_key(
                            moves@[j],
                        ),
                    forall|t: (usize, usize, usize, usize)|
                        #[trigger] self.is_legal_tuple(t) && (t.0 < mr || (t.0 == mr && t.1 < mc))
                            ==> moves@.contains(t),
            {
                let candidate = match self.active_sub_board {
                    Some((ar, ac)) => ar == mr && ac == mc,
                    None => true,
                };
                let sb = {
                    let row_arr = self.board.sub_boards[mr];
                    row_arr[mc]
                };
                if candidate && sb.outcome() == Outcome::InProgress {
                    for r in 0..3
                        invariant
                            forall|i: int|
                                0 <= i < moves@.len() ==> self.is_legal_tuple(
                                    #[trigger] moves@[i],
                                ),
                            forall|i: int|
                                0 <= i < moves@.len() ==> Self::move_key(#[trigger] moves@[i])
                                    < 27 * (mr as int) + 9 * (mc as int) + 3 * (r as int),
                            forall|i: int, j: int|
                                0 <= i < j < moves@.len() ==> Self::move_key(moves@[i])
                                    < Self::move_key(moves@[j]),
                            forall|t: (usize, usize, usize, usize)|
                                #[trigger] self.is_legal_tuple(t) && (t.0 < mr || (t.0 == mr
                                    && t.1 < mc) || (t.0 == mr && t.1 == mc && t.2 < r))
                                    ==> moves@.contains(t),
                    {
                        for c in 0..3
                            invariant
                                forall|i: int|
                                    0 <= i < moves@.len() ==> self.is_legal_tuple(
                                        #[trigger] moves@[i],
                                    ),
                                forall|i: int|
                                    0 <= i < moves@.len() ==> Self::move_key(#[trigger] moves@[i])
                                        < 27 * (mr as int) + 9 * (mc as int) + 3 * (r as int) + (c as int),
                                forall|i: int, j: int|
                                    0 <= i < j < moves@.len() ==> Self::move_key(moves@[i])
                                        < Self::move_key(moves@[j]),
                                forall|t: (usize, usize, usize, usize)|
                                    #[trigger] self.is_legal_tuple(t) && (t.0 < mr || (t.0 == mr
                                        && t.1 < mc) || (t.0 == mr && t.1 == mc && (t.2 < r || (
                                    t.2 == r && t.3 < c)))) ==> moves@.contains(t),
                        {
                            if sb.cell(r, c) == Mark::Empty {
                                let ghost old_moves = moves@;
                                moves.push((mr, mc, r, c));
                                proof {
                                    assert(moves@ == old_moves.push((mr, mc, r, c)));
                                    assert(moves@[moves@.len() - 1] == (mr, mc, r, c));
                                    assert forall|t2: (usize, usize, usize, usize)|
                                        old_moves.contains(t2) implies moves@.contains(t2) by {
                                        let i = choose|i: int|
                                            0 <= i < old_moves.len() && old_moves[i] == t2;
                                        assert(moves@[i] == t2);
                                    }
                                }
                            }
                        }
                    }
                }
            }
        }
        proof {
            match self.spec_active() {
                Some((ar, ac)) => {
                    assert(self.spec_sub(ar, ac).wf());
                    self.spec_sub(ar, ac).lemma_in_progress_open();
                    let (r, c) = choose|r: int, c: int|
                        0 <= r < 3 && 0 <= c < 3 && self.spec_sub(ar, ac).spec_cell(r, c)
                            == Mark::Empty;
                    let t = (ar as usize, ac as usize, r as usize, c as usize);
                    assert(self.is_legal_tuple(t));
                    assert(moves@.contains(t));
                },
                None => {
                    assert(!subs_resolved(self.board.sub_boards));
                    assert(exists|a: int, b: int|
                        0 <= a < 3 && 0 <= b < 3 && ((#[trigger] self.board.sub_boards@[a]@[b]).spec_outcome()
                            is InProgress));
                    let (a, b) = choose|a: int, b: int|
                        0 <= a < 3 && 0 <= b < 3 && ((#[trigger] self.board.sub_boards@[a]@[b]).spec_outcome()
                            is InProgress);
                    assert(self.spec_sub(a, b).wf());
                    self.spec_sub(a, b).lemma_in_progress_open();
                    let (r, c) = choose|r: int, c: int|
                        0 <= r < 3 && 0 <= c < 3 && self.spec_sub(a, b).spec_cell(r, c)
                            == Mark::Empty;
                    let t = (a as usize, b as usize, r as usize, c as usize);
                    assert(self.is_legal_tuple(t));
                    assert(moves@.contains(t));
                },
            }
        }
        moves
    }

    /// The single mutating entry point. Applies the current player's mark
    /// at cell (row, col) of sub-board (meta_row, meta_col) when the move
    /// is legal, re-derives the sub-board's and the meta-game's outcomes,
    /// advances the turn and the active constraint, and returns true.
    /// Any illegal move — out-of-range or mis-targeted coordinates, an
    /// occupied cell, a resolved sub-board, a finished match — returns
    /// false and changes nothing at all.
    pub fn play(&mut self, meta_row: usize, meta_col: usize, row: usize, col: usize) -> (ok: bool)
        ensures
            ok == old(self).is_legal_move(
                meta_row as int,
                meta_col as int,
                row as int,
                col as int,
            ),
            !ok ==> *final(self) == *old(self),
            Self::play_step(
                *old(self),
                *final(self),
                meta_row as int,
                meta_col as int,
                row as int,
                col as int,
            ),
    {
        proof {
            use_type_invariant(&*self);
        }
        if meta_row >= 3 || meta_col >= 3 {
            return false;
        }
        if self.board.outcome != Outcome::InProgress {
            return false;
        }
        match self.active_sub_board {
            Some((ar, ac)) => {
                if ar != meta_row || ac != meta_col {
                    return false;
                }
            },
            None => {},
        }
        let mark = self.current_turn;
        let mut sb = {
            let row_arr = self.board.sub_boards[meta_row];
            row_arr[meta_col]
        };
        if !sb.play(row, col, mark) {
            return false;
        }
        proof {
            use_type_invariant(&sb);
        }
        let mut row_arr = self.board.sub_boards[meta_row];
        row_arr[meta_col] = sb;
        let mut sub_boards = self.board.sub_boards;
        sub_boards[meta_row] = row_arr;
        proof {
            assert(sub_boards@[meta_row as int]@[meta_col as int] == sb);
            assert forall|a: int, b: int|
                0 <= a < 3 && 0 <= b < 3 && !(a == meta_row && b == meta_col) implies #[trigger] sub_boards@[a]@[b]
                == old(self).board.sub_boards@[a]@[b] by {}
            assert forall|a: int, b: int| 0 <= a < 3 && 0 <= b < 3 implies (#[trigger] sub_boards@[a]@[b]).wf() by {
                if !(a == meta_row as int && b == meta_col as int) {
                    assert(old(self).spec_sub(a, b).wf());
                    assert(sub_boards@[a]@[b] == old(self).spec_sub(a, b));
                }
            }
            assert forall|r: int, c: int| 0 <= r < 3 && 0 <= c < 3 implies #[trigger] subs_proj(
                old(self).board.sub_boards,
            )(r, c) != Some(Mark::Empty) by {
                assert(old(self).spec_sub(r, c).wf());
                old(self).spec_sub(r, c).lemma_winner_real();
            }
            assert forall|m: Mark|
                subs_proj(sub_boards)(meta_row as int, meta_col as int) == Some(m) implies m
                == mark by {}
            lemma_win_needs_changed_cell(
                subs_proj(old(self).board.sub_boards),
                subs_proj(sub_boards),
                meta_row as int,
                meta_col as int,
                mark,
            );
        }
        let new_game = match winner_of_subs(&sub_boards) {
            Some(w) => Game {
                board: Board { sub_boards, outcome: Outcome::Win(w) },
                current_turn: Mark::Empty,
                active_sub_board: None,
            },
            None => {
                if all_subs_resolved(&sub_boards) {
                    Game {
                        board: Board { sub_boards, outcome: Outcome::Draw },
                        current_turn: Mark::Empty,
                        active_sub_board: None,
                    }
                } else {
                    let target = {
                        let ra = sub_boards[row];
                        ra[col]
                    };
                    let active = if target.outcome() == Outcome::InProgress {
                        Some((row, col))
                    } else {
                        None
                    };
                    Game {
                        board: Board { sub_boards, outcome: Outcome::InProgress },
                        current_turn: mark.next(),
                        active_sub_board: active,
                    }
                }
            },
        };
        *self = new_game;
        true
    }
}

} // verus!
