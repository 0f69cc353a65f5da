//! Game logic of Minesweeper: a rectangular grid of cells, mine placement,
//! flood-fill reveal, flag bookkeeping, win and loss detection and scoring.
mod board;
mod clock;
mod count;
mod flood;
mod grid;
mod laws;
mod placement;
mod random;
mod setup;
mod tile;

pub use board::{count_true, valid_config, Board, BoardView};
pub use count::{
    count, p_flagged, p_flagged_mine, p_hidden, p_mine, p_safe_hidden, p_safe_revealed,
};
pub use grid::{
    adjacency_ok, adjacent_count, cell_at, idx, in_grid, is_neighbor, mine_at, neighbor_cells,
};
pub use laws::{lemma_adjacency_correct, lemma_reveal_idempotent};
pub use placement::{untouched, weighted_accepts, MAX_WEIGHTED_DRAWS};
pub use setup::{get_tint, num_to_word, tint_of, validate_input, word_of, CustomBoard};
pub use tile::{BoardError, Tile};
