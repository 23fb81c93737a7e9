use super_tictactoe::mark::{Mark, Outcome};
use super_tictactoe::sub_board::SubBoard;

#[test]
fn mark_next_alternates() {
    assert_eq!(Mark::X.next(), Mark::O);
    assert_eq!(Mark::O.next(), Mark::X);
    assert_eq!(Mark::Empty.next(), Mark::X);
}

#[test]
fn mark_symbol() {
    assert_eq!(Mark::X.symbol(), "X");
    assert_eq!(Mark::O.symbol(), "O");
    assert_eq!(Mark::Empty.symbol(), "");
}

#[test]
fn new_sub_board_is_empty_and_in_progress() {
    let s = SubBoard::new();
    assert_eq!(s.outcome(), Outcome::InProgress);
    assert_eq!(s.check_winner(), None);
    assert!(!s.is_full());
    for r in 0..3 {
        for c in 0..3 {
            assert_eq!(s.cell(r, c), Mark::Empty);
        }
    }
}

#[test]
fn sub_board_play_sets_cell() {
    let mut s = SubBoard::new();
    assert!(s.play(1, 2, Mark::X));
    assert_eq!(s.cell(1, 2), Mark::X);
    assert_eq!(s.outcome(), Outcome::InProgress);
}

#[test]
fn sub_board_rejects_occupied_cell() {
    let mut s = SubBoard::new();
    assert!(s.play(0, 0, Mark::X));
    let snap = s;
    assert!(!s.play(0, 0, Mark::O));
    assert_eq!(s, snap);
    assert_eq!(s.cell(0, 0), Mark::X);
}

#[test]
fn sub_board_rejects_out_of_range() {
    let mut s = SubBoard::new();
    let snap = s;
    assert!(!s.play(3, 0, Mark::X));
    assert!(!s.play(0, 3, Mark::X));
    assert!(!s.play(9, 9, Mark::X));
    assert_eq!(s, snap);
}

#[test]
fn sub_board_row_win() {
    let mut s = SubBoard::new();
    assert!(s.play(1, 0, Mark::X));
    assert!(s.play(1, 1, Mark::X));
    assert_eq!(s.outcome(), Outcome::InProgress);
    assert!(s.play(1, 2, Mark::X));
    assert_eq!(s.outcome(), Outcome::Win(Mark::X));
    assert_eq!(s.check_winner(), Some(Mark::X));
}

#[test]
fn sub_board_column_win() {
    let mut s = SubBoard::new();
    assert!(s.play(0, 2, Mark::O));
    assert!(s.play(1, 2, Mark::O));
    assert!(s.play(2, 2, Mark::O));
    assert_eq!(s.outcome(), Outcome::Win(Mark::O));
}

#[test]
fn sub_board_diagonal_win() {
    let mut s = SubBoard::new();
    assert!(s.play(0, 0, Mark::X));
    assert!(s.play(1, 1, Mark::X));
    assert!(s.play(2, 2, Mark::X));
    assert_eq!(s.outcome(), Outcome::Win(Mark::X));
}

#[test]
fn sub_board_anti_diagonal_win() {
    let mut s = SubBoard::new();
    assert!(s.play(0, 2, Mark::O));
    assert!(s.play(1, 1, Mark::O));
    assert!(s.play(2, 0, Mark::O));
    assert_eq!(s.outcome(), Outcome::Win(Mark::O));
}

#[test]
fn sub_board_resolved_rejects_further_plays() {
    let mut s = SubBoard::new();
    assert!(s.play(0, 0, Mark::X));
    assert!(s.play(0, 1, Mark::X));
    assert!(s.play(0, 2, Mark::X));
    assert_eq!(s.outcome(), Outcome::Win(Mark::X));
    let snap = s;
    assert!(!s.play(2, 2, Mark::O));
    assert_eq!(s, snap);
    assert_eq!(s.cell(2, 2), Mark::Empty);
}

#[test]
fn sub_board_draw_when_full_without_line() {
    // X X O
    // O O X
    // X X O
    let layout = [
        (0, 0, Mark::X),
        (0, 1, Mark::X),
        (0, 2, Mark::O),
        (1, 0, Mark::O),
        (1, 1, Mark::O),
        (1, 2, Mark::X),
        (2, 0, Mark::X),
        (2, 1, Mark::X),
        (2, 2, Mark::O),
    ];
    let mut s = SubBoard::new();
    for &(r, c, m) in layout.iter() {
        assert!(s.play(r, c, m));
    }
    assert!(s.is_full());
    assert_eq!(s.check_winner(), None);
    assert_eq!(s.outcome(), Outcome::Draw);
}
