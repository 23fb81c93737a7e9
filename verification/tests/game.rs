use super_tictactoe::game::Game;
use super_tictactoe::mark::{Mark, Outcome};

#[test]
fn new_game_initial_state() {
    let g = Game::new();
    assert_eq!(g.current_turn(), Mark::X);
    assert_eq!(g.outcome(), Outcome::InProgress);
    assert_eq!(g.active_sub_board(), None);
    assert_eq!(g.check_winner(), None);
    assert!(!g.is_full());
    for mr in 0..3 {
        for mc in 0..3 {
            assert_eq!(g.sub_board_outcome(mr, mc), Outcome::InProgress);
            for r in 0..3 {
                for c in 0..3 {
                    assert_eq!(g.cell(mr, mc, r, c), Mark::Empty);
                }
            }
        }
    }
}

#[test]
fn initial_legal_moves_are_all_81_in_row_major_order() {
    let g = Game::new();
    let moves = g.legal_moves();
    assert_eq!(moves.len(), 81);
    let mut i: usize = 0;
    for mr in 0..3 {
        for mc in 0..3 {
            for r in 0..3 {
                for c in 0..3 {
                    assert_eq!(moves[i], (mr, mc, r, c));
                    i += 1;
                }
            }
        }
    }
}

#[test]
fn play_places_current_mark_and_alternates_turn() {
    let mut g = Game::new();
    assert!(g.play(1, 2, 0, 1));
    assert_eq!(g.cell(1, 2, 0, 1), Mark::X);
    assert_eq!(g.current_turn(), Mark::O);
    assert!(g.play(0, 1, 2, 2));
    assert_eq!(g.cell(0, 1, 2, 2), Mark::O);
    assert_eq!(g.current_turn(), Mark::X);
}

#[test]
fn scenario_a_send_to_rule() {
    let mut g = Game::new();
    assert!(g.play(0, 0, 0, 0));
    // the move at local (0, 0) sends the opponent to sub-board (0, 0)
    assert_eq!(g.active_sub_board(), Some((0, 0)));
    assert!(g.play(0, 0, 1, 1));
    assert_eq!(g.cell(0, 0, 1, 1), Mark::O);
    // the move at local (1, 1) constrains the next move to sub-board (1, 1)
    assert_eq!(g.active_sub_board(), Some((1, 1)));
    // a move anywhere else fails without effect
    let snap = g;
    assert!(!g.play(0, 0, 2, 2));
    assert!(!g.play(2, 2, 0, 0));
    assert_eq!(g, snap);
    // a move inside sub-board (1, 1) succeeds
    assert!(g.play(1, 1, 2, 2));
    assert_eq!(g.cell(1, 1, 2, 2), Mark::X);
}

#[test]
fn legal_moves_under_active_constraint() {
    let mut g = Game::new();
    assert!(g.play(0, 0, 1, 1));
    assert_eq!(g.active_sub_board(), Some((1, 1)));
    let moves = g.legal_moves();
    assert_eq!(moves.len(), 9);
    for &(mr, mc, _, _) in moves.iter() {
        assert_eq!((mr, mc), (1, 1));
    }
    assert!(g.play(1, 1, 0, 0));
    assert_eq!(g.active_sub_board(), Some((0, 0)));
    // cell (1, 1) of sub-board (0, 0) is already taken by X
    let moves = g.legal_moves();
    assert_eq!(moves.len(), 8);
    for &(mr, mc, r, c) in moves.iter() {
        assert_eq!((mr, mc), (0, 0));
        assert!(!(r == 1 && c == 1));
    }
}

#[test]
fn cells_are_write_once() {
    let mut g = Game::new();
    assert!(g.play(0, 0, 0, 0));
    // the send-to rule points back at sub-board (0, 0): the occupied cell
    // is rejected and keeps its mark
    assert_eq!(g.active_sub_board(), Some((0, 0)));
    let snap = g;
    assert!(!g.play(0, 0, 0, 0));
    assert_eq!(g, snap);
    assert_eq!(g.cell(0, 0, 0, 0), Mark::X);
}

#[test]
fn scenario_b_sub_board_win_and_free_choice() {
    let mut g = Game::new();
    // X fills row 0 of sub-board (0, 0); O is bounced elsewhere and keeps
    // sending X back into (0, 0)
    let moves: [(usize, usize, usize, usize); 5] = [
        (0, 0, 0, 1), // X
        (0, 1, 0, 0), // O, sent to (0, 1), sends X back to (0, 0)
        (0, 0, 0, 2), // X
        (0, 2, 0, 0), // O, sent to (0, 2), sends X back to (0, 0)
        (0, 0, 0, 0), // X completes row 0 of sub-board (0, 0)
    ];
    for &(mr, mc, r, c) in moves.iter() {
        assert!(g.play(mr, mc, r, c));
    }
    assert_eq!(g.sub_board_outcome(0, 0), Outcome::Win(Mark::X));
    assert_eq!(g.outcome(), Outcome::InProgress);
    assert_eq!(g.current_turn(), Mark::O);
    // the winning move's local cell (0, 0) points at the resolved
    // sub-board (0, 0): the constraint is lifted
    assert_eq!(g.active_sub_board(), None);
    // a move into the resolved sub-board fails
    let snap = g;
    assert!(!g.play(0, 0, 1, 1));
    assert_eq!(g, snap);
    // free choice: O may play any unresolved sub-board; sending into the
    // resolved (0, 0) again lifts the constraint again
    assert!(g.play(1, 1, 0, 0));
    assert_eq!(g.active_sub_board(), None);
}

#[test]
fn scenario_c_meta_win_row_for_o() {
    let mut g = Game::new();
    let moves: [(usize, usize, usize, usize); 72] = [
        (0, 2, 1, 2), (1, 2, 0, 1), (0, 1, 2, 1), (2, 1, 1, 2), (1, 2, 1, 1), (1, 1, 1, 0),
        (1, 0, 2, 1), (2, 1, 2, 2), (2, 2, 0, 2), (0, 2, 2, 2), (2, 2, 1, 2), (1, 2, 1, 2),
        (1, 2, 1, 0), (1, 0, 1, 0), (1, 0, 0, 2), (0, 2, 2, 0), (2, 0, 0, 1), (0, 1, 1, 2),
        (1, 2, 2, 2), (2, 2, 2, 1), (2, 1, 2, 1), (2, 1, 0, 1), (0, 1, 2, 2), (2, 2, 0, 1),
        (0, 1, 0, 1), (0, 1, 0, 2), (0, 2, 0, 1), (0, 1, 1, 1), (1, 1, 1, 1), (1, 1, 2, 2),
        (2, 2, 2, 0), (2, 0, 1, 1), (1, 1, 2, 1), (2, 1, 1, 0), (1, 0, 1, 1), (1, 1, 0, 0),
        (0, 0, 1, 2), (1, 2, 2, 1), (2, 1, 0, 2), (0, 2, 1, 1), (1, 1, 1, 2), (1, 2, 2, 0),
        (2, 0, 2, 0), (2, 0, 2, 1), (2, 1, 1, 1), (1, 1, 0, 2), (0, 2, 1, 0), (1, 0, 2, 2),
        (2, 2, 0, 0), (0, 0, 1, 1), (1, 1, 2, 0), (2, 0, 2, 2), (2, 2, 2, 2), (0, 0, 2, 0),
        (2, 0, 1, 2), (1, 2, 0, 0), (0, 0, 0, 1), (0, 1, 0, 0), (0, 0, 2, 1), (2, 1, 0, 0),
        (0, 0, 2, 2), (2, 0, 1, 0), (1, 0, 2, 0), (2, 0, 0, 0), (0, 0, 1, 0), (0, 1, 2, 0),
        (0, 2, 2, 1), (2, 1, 2, 0), (1, 2, 0, 2), (0, 2, 0, 2), (0, 0, 0, 0), (0, 0, 0, 2),
    ];
    for &(mr, mc, r, c) in moves.iter() {
        assert_eq!(g.outcome(), Outcome::InProgress);
        assert!(g.play(mr, mc, r, c));
    }
    // row 0 of the meta-board is three sub-boards won by O
    assert_eq!(g.sub_board_outcome(0, 0), Outcome::Win(Mark::O));
    assert_eq!(g.sub_board_outcome(0, 1), Outcome::Win(Mark::O));
    assert_eq!(g.sub_board_outcome(0, 2), Outcome::Win(Mark::O));
    assert_eq!(g.outcome(), Outcome::Win(Mark::O));
    assert_eq!(g.check_winner(), Some(Mark::O));
    // the turn resets to the neutral value and the constraint is cleared
    assert_eq!(g.current_turn(), Mark::Empty);
    assert_eq!(g.active_sub_board(), None);
    // every further call fails without effect
    assert!(g.legal_moves().is_empty());
    let snap = g;
    for mr in 0..3 {
        for mc in 0..3 {
            for r in 0..3 {
                for c in 0..3 {
                    assert!(!g.play(mr, mc, r, c));
                }
            }
        }
    }
    assert_eq!(g, snap);
}

#[test]
fn scenario_d_meta_draw() {
    let mut g = Game::new();
    let moves: [(usize, usize, usize, usize); 62] = [
        (2, 2, 0, 1), (0, 1, 0, 1), (0, 1, 2, 2), (2, 2, 1, 2), (1, 2, 0, 0), (0, 0, 0, 0),
        (0, 0, 1, 0), (1, 0, 2, 1), (2, 1, 1, 2), (1, 2, 2, 0), (2, 0, 0, 0), (0, 0, 1, 1),
        (1, 1, 2, 1), (2, 1, 1, 0), (1, 0, 2, 0), (2, 0, 0, 2), (0, 2, 1, 0), (1, 0, 1, 1),
        (1, 1, 1, 1), (1, 1, 2, 0), (2, 0, 2, 2), (2, 2, 2, 0), (2, 0, 2, 1), (2, 1, 0, 0),
        (0, 0, 2, 0), (2, 0, 1, 1), (1, 1, 0, 0), (0, 0, 1, 2), (1, 2, 2, 2), (2, 2, 1, 1),
        (1, 1, 1, 0), (1, 0, 1, 0), (1, 0, 0, 0), (0, 0, 0, 2), (0, 2, 1, 2), (1, 2, 0, 1),
        (0, 1, 0, 0), (0, 0, 2, 2), (2, 2, 0, 2), (0, 2, 2, 2), (2, 2, 2, 1), (2, 1, 2, 0),
        (2, 0, 1, 0), (1, 0, 0, 1), (0, 1, 2, 1), (1, 1, 0, 1), (0, 1, 1, 0), (2, 0, 1, 2),
        (1, 2, 1, 2), (1, 2, 1, 1), (1, 1, 1, 2), (1, 2, 2, 1), (0, 1, 1, 1), (0, 2, 0, 1),
        (2, 2, 1, 0), (2, 2, 2, 2), (2, 2, 0, 0), (0, 2, 0, 0), (2, 0, 0, 1), (0, 2, 2, 0),
        (2, 0, 2, 0), (0, 2, 2, 1),
    ];
    for &(mr, mc, r, c) in moves.iter() {
        assert!(g.play(mr, mc, r, c));
    }
    // every sub-board is resolved, no three won by one mark align
    for mr in 0..3 {
        for mc in 0..3 {
            assert_ne!(g.sub_board_outcome(mr, mc), Outcome::InProgress);
        }
    }
    assert!(g.is_full());
    assert_eq!(g.check_winner(), None);
    assert_eq!(g.outcome(), Outcome::Draw);
    assert_eq!(g.current_turn(), Mark::Empty);
    assert_eq!(g.active_sub_board(), None);
    assert!(g.legal_moves().is_empty());
    let snap = g;
    assert!(!g.play(0, 0, 0, 0));
    assert_eq!(g, snap);
}

#[test]
fn out_of_range_moves_fail_without_effect() {
    let mut g = Game::new();
    assert!(g.play(0, 0, 1, 1));
    let snap = g;
    assert!(!g.play(3, 0, 0, 0));
    assert!(!g.play(0, 3, 0, 0));
    assert!(!g.play(1, 1, 3, 0));
    assert!(!g.play(1, 1, 0, 3));
    assert!(!g.play(9, 9, 9, 9));
    assert!(!g.play(usize::MAX, 0, 0, 0));
    assert_eq!(g, snap);
    assert_eq!(g.current_turn(), Mark::O);
    assert_eq!(g.active_sub_board(), Some((1, 1)));
}

#[test]
fn mis_targeted_moves_fail_without_effect() {
    let mut g = Game::new();
    assert!(g.play(2, 2, 0, 1));
    assert_eq!(g.active_sub_board(), Some((0, 1)));
    let snap = g;
    for mr in 0..3 {
        for mc in 0..3 {
            if !(mr == 0 && mc == 1) {
                assert!(!g.play(mr, mc, 0, 0));
            }
        }
    }
    assert_eq!(g, snap);
}

#[test]
fn legal_moves_nonempty_while_in_progress() {
    let mut g = Game::new();
    let moves: [(usize, usize, usize, usize); 5] = [
        (0, 0, 0, 1),
        (0, 1, 0, 0),
        (0, 0, 0, 2),
        (0, 2, 0, 0),
        (0, 0, 0, 0),
    ];
    for &(mr, mc, r, c) in moves.iter() {
        assert_eq!(g.outcome(), Outcome::InProgress);
        assert!(!g.legal_moves().is_empty());
        assert!(g.play(mr, mc, r, c));
    }
    assert!(!g.legal_moves().is_empty());
    // the resolved sub-board (0, 0) contributes no moves
    for &(mr, mc, _, _) in g.legal_moves().iter() {
        assert!(!(mr == 0 && mc == 0));
    }
}
