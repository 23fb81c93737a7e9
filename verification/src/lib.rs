//! Rules engine for Super Tic-Tac-Toe: a 3x3 grid of 3x3 tic-tac-toe
//! sub-boards, where the cell just played determines which sub-board the
//! opponent must play in next.

pub mod game;
pub mod lines;
pub mod mark;
pub mod sub_board;
