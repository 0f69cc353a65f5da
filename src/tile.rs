use vstd::prelude::*;

verus! {

/// One cell of the grid, as the presentation layer sees it.
#[derive(Clone, Copy, Debug, PartialEq, Eq, Structural)]
pub struct Tile {
    pub is_mine: bool,
    pub is_revealed: bool,
    pub is_flagged: bool,
    pub adjacent_mines: u8,
}

impl Tile {
    pub open spec fn blank_spec() -> Tile {
        Tile { is_mine: false, is_revealed: false, is_flagged: false, adjacent_mines: 0 }
    }

    /// A cell that is hidden, unflagged and holds no mine.
    pub fn blank() -> (t: Tile)
        ensures
            t == Tile::blank_spec(),
    {
        Tile { is_mine: false, is_revealed: false, is_flagged: false, adjacent_mines: 0 }
    }
}

/// Why an operation on a board was refused.
#[derive(Clone, Copy, Debug, PartialEq, Eq, Structural)]
pub enum BoardError {
    /// The dimensions or the mine count cannot make a playable board.
    InvalidConfiguration,
    /// A coordinate lies outside the grid.
    OutOfBounds,
}

} // verus!
