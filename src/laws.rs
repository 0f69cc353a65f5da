use vstd::prelude::*;

use crate::board::BoardView;
use crate::flood::{lemma_opens_nothing, lemma_opens_start};
use crate::grid::{
    adjacent_count, idx, lemma_adjacency_at, lemma_idx_bounds, lemma_idx_injective, lemma_idx_onto,
};

verus! {

/// On every board, each cell records exactly the number of mines among its
/// up to eight neighbours on the grid.
pub proof fn lemma_adjacency_correct(b: BoardView, x: int, y: int)
    requires
        b.wf(),
        b.contains(x, y),
    ensures
        b.cell(x, y).adjacent_mines == adjacent_count(b.cells, b.width, b.height, x, y),
{
    lemma_adjacency_at(b.cells, b.width, b.height, x, y);
}

/// Revealing the same cell a second time changes nothing: after a first
/// reveal at (x, y) the cell can no longer be opened, and a second reveal
/// there leaves every cell, and so the score, as it was.
pub proof fn lemma_reveal_idempotent(b: BoardView, x: int, y: int)
    requires
        b.wf(),
        b.contains(x, y),
    ensures
        !(BoardView { cells: b.reveal_cells(x, y), ..b }).openable(x, y),
        (BoardView { cells: b.reveal_cells(x, y), ..b }).reveal_cells(x, y) == b.reveal_cells(
            x,
            y,
        ),
{
    let c = BoardView { cells: b.reveal_cells(x, y), ..b };
    let i = idx(b.width, x, y);
    lemma_idx_bounds(b.width, b.height, x, y);
    lemma_idx_onto(b.width, b.height, i);
    lemma_idx_injective(b.width, b.height, x, y, i % b.width, i / b.width);
    if b.openable(x, y) {
        lemma_opens_start(b, x, y);
    }
    assert(!c.openable(x, y));
    assert forall|a: int, d: int| !c.opens(x, y, a, d) by {
        lemma_opens_nothing(c, x, y, a, d);
    }
    assert(c.reveal_cells(x, y) =~= c.cells);
}

} // verus!
