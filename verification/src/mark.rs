//! Player marks and the outcome of a board (sub-board or meta-game).

use vstd::prelude::*;

verus! {

/// The content of a cell: empty, or claimed by player X or player O.
/// `Empty` doubles as the neutral "no player" value that `current_turn`
/// takes once a match is over.
#[derive(Clone, Copy, Debug, PartialEq, Eq, Structural)]
pub enum Mark {
    Empty,
    X,
    O,
}

/// The resolution state of a board: still playable, won by a mark, or
/// drawn. Once a board leaves `InProgress` it never returns to it.
#[derive(Clone, Copy, Debug, PartialEq, Eq, Structural)]
pub enum Outcome {
    InProgress,
    Win(Mark),
    Draw,
}

impl Mark {
    /// The mark whose turn follows this one: X and O alternate.
    pub open spec fn spec_next(self) -> Mark {
        match self {
            Mark::X => Mark::O,
            Mark::O => Mark::X,
            Mark::Empty => Mark::X,
        }
    }

    /// Advances the turn to the other player.
    pub fn next(self) -> (r: Mark)
        ensures
            r == self.spec_next(),
    {
        match self {
            Mark::X => Mark::O,
            Mark::O => Mark::X,
            Mark::Empty => Mark::X,
        }
    }

    /// The display symbol of the mark, as a sequence of characters.
    pub open spec fn spec_symbol(self) -> Seq<char> {
        match self {
            Mark::Empty => Seq::<char>::empty(),
            Mark::X => seq!['X'],
            Mark::O => seq!['O'],
        }
    }

    /// The display symbol of the mark: "X", "O", or "" for an empty cell.
    pub fn symbol(self) -> (r: &'static str)
        ensures
            r@ == self.spec_symbol(),
    {
        match self {
            Mark::Empty => {
                let s = "";
                proof {
                    reveal_strlit("");
                    assert(s@ =~= Seq::<char>::empty());
                }
                s
            },
            Mark::X => {
                let s = "X";
                proof {
                    reveal_strlit("X");
                    assert(s@ =~= seq!['X']);
                }
                s
            },
            Mark::O => {
                let s = "O";
                proof {
                    reveal_strlit("O");
                    assert(s@ =~= seq!['O']);
                }
                s
            },
        }
    }
}

} // verus!
