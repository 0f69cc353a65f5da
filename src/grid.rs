use vstd::prelude::*;

use crate::tile::Tile;

verus! {

/// Whether (x, y) lies on a grid of `w` columns and `h` rows.
pub open spec fn in_grid(w: int, h: int, x: int, y: int) -> bool {
    0 <= x < w && 0 <= y < h
}

/// Position of cell (x, y) in the row-major sequence of cells.
pub open spec fn idx(w: int, x: int, y: int) -> int {
    y * w + x
}

/// Whether two distinct cells touch, by side or by corner.
pub open spec fn is_neighbor(x1: int, y1: int, x2: int, y2: int) -> bool {
    -1 <= x1 - x2 <= 1 && -1 <= y1 - y2 <= 1 && !(x1 == x2 && y1 == y2)
}

/// 1 when (x, y) is on the grid and holds a mine, 0 otherwise.
pub open spec fn mine_at(s: Seq<Tile>, w: int, h: int, x: int, y: int) -> nat {
    if in_grid(w, h, x, y) && s[idx(w, x, y)].is_mine {
        1
    } else {
        0
    }
}

/// Number of mines among the up to eight grid-clipped neighbours of (x, y).
pub open spec fn adjacent_count(s: Seq<Tile>, w: int, h: int, x: int, y: int) -> nat {
    mine_at(s, w, h, x - 1, y - 1) + mine_at(s, w, h, x, y - 1) + mine_at(s, w, h, x + 1, y - 1)
        + mine_at(s, w, h, x - 1, y) + mine_at(s, w, h, x + 1, y) + mine_at(s, w, h, x - 1, y + 1)
        + mine_at(s, w, h, x, y + 1) + mine_at(s, w, h, x + 1, y + 1)
}

/// 1 when (x, y) is on the grid, 0 otherwise.
pub open spec fn cell_at(w: int, h: int, x: int, y: int) -> nat {
    if in_grid(w, h, x, y) {
        1
    } else {
        0
    }
}

/// Number of on-grid neighbours of (x, y): eight, fewer at an edge.
pub open spec fn neighbor_cells(w: int, h: int, x: int, y: int) -> nat {
    cell_at(w, h, x - 1, y - 1) + cell_at(w, h, x, y - 1) + cell_at(w, h, x + 1, y - 1) + cell_at(
        w,
        h,
        x - 1,
        y,
    ) + cell_at(w, h, x + 1, y) + cell_at(w, h, x - 1, y + 1) + cell_at(w, h, x, y + 1) + cell_at(
        w,
        h,
        x + 1,
        y + 1,
    )
}

/// Every on-grid cell of `s` records the number of mines around it.
#[verifier::opaque]
pub open spec fn adjacency_ok(s: Seq<Tile>, w: int, h: int) -> bool {
    forall|x: int, y: int|
        #![trigger s[idx(w, x, y)]]
        in_grid(w, h, x, y) ==> s[idx(w, x, y)].adjacent_mines == adjacent_count(s, w, h, x, y)
}

/// Adjacent counts depend on where the mines are and on nothing else.
pub proof fn lemma_same_mines_adjacent(s1: Seq<Tile>, s2: Seq<Tile>, w: int, h: int, x: int, y: int)
    requires
        0 < w,
        0 < h,
        s1.len() == w * h,
        s2.len() == w * h,
        forall|i: int| 0 <= i < s1.len() ==> #[trigger] s1[i].is_mine == s2[i].is_mine,
    ensures
        adjacent_count(s1, w, h, x, y) == adjacent_count(s2, w, h, x, y),
{
    assert forall|a: int, b: int| #[trigger] mine_at(s1, w, h, a, b) == mine_at(s2, w, h, a, b) by {
        if in_grid(w, h, a, b) {
            lemma_idx_bounds(w, h, a, b);
            assert(s1[idx(w, a, b)].is_mine == s2[idx(w, a, b)].is_mine);
        }
    }
}

/// Changes that keep every mine and every recorded count keep the counts right.
pub proof fn lemma_adjacency_kept(s1: Seq<Tile>, s2: Seq<Tile>, w: int, h: int)
    requires
        0 < w,
        0 < h,
        s1.len() == w * h,
        s2.len() == w * h,
        adjacency_ok(s1, w, h),
        forall|i: int|
            0 <= i < s1.len() ==> #[trigger] s1[i].is_mine == s2[i].is_mine
                && s1[i].adjacent_mines == s2[i].adjacent_mines,
    ensures
        adjacency_ok(s2, w, h),
{
    reveal(adjacency_ok);
    assert forall|x: int, y: int| #![trigger s2[idx(w, x, y)]] in_grid(w, h, x, y) implies s2[idx(
        w,
        x,
        y,
    )].adjacent_mines == adjacent_count(s2, w, h, x, y) by {
        lemma_idx_bounds(w, h, x, y);
        assert(s1[idx(w, x, y)].is_mine == s2[idx(w, x, y)].is_mine);
        lemma_same_mines_adjacent(s1, s2, w, h, x, y);
    }
}

/// What `adjacency_ok` says of one cell.
pub proof fn lemma_adjacency_at(s: Seq<Tile>, w: int, h: int, x: int, y: int)
    requires
        adjacency_ok(s, w, h),
        in_grid(w, h, x, y),
    ensures
        s[idx(w, x, y)].adjacent_mines == adjacent_count(s, w, h, x, y),
{
    reveal(adjacency_ok);
}

/// No neighbour of a cell with no mine around it holds a mine.
pub proof fn lemma_zero_count_neighbor(s: Seq<Tile>, w: int, h: int, x: int, y: int, nx: int, ny: int)
    requires
        adjacent_count(s, w, h, x, y) == 0,
        is_neighbor(x, y, nx, ny),
    ensures
        mine_at(s, w, h, nx, ny) == 0,
{
    if nx == x - 1 {
        if ny == y - 1 {
        } else if ny == y {
        } else {
        }
    } else if nx == x {
        if ny == y - 1 {
        } else {
        }
    } else {
        if ny == y - 1 {
        } else if ny == y {
        } else {
        }
    }
}

pub proof fn lemma_idx_bounds(w: int, h: int, x: int, y: int)
    requires
        in_grid(w, h, x, y),
    ensures
        0 <= idx(w, x, y) < w * h,
{
    assert(0 <= y * w) by (nonlinear_arith)
        requires
            0 <= y,
            0 < w,
    ;
    assert(y * w + x < w * h) by (nonlinear_arith)
        requires
            0 <= x < w,
            0 <= y < h,
    ;
}

/// Distinct on-grid positions have distinct indices.
pub proof fn lemma_idx_injective(w: int, h: int, x1: int, y1: int, x2: int, y2: int)
    requires
        in_grid(w, h, x1, y1),
        in_grid(w, h, x2, y2),
        idx(w, x1, y1) == idx(w, x2, y2),
    ensures
        x1 == x2 && y1 == y2,
{
    if y1 < y2 {
        assert(y1 * w + w <= y2 * w) by (nonlinear_arith)
            requires
                y1 < y2,
                0 < w,
        ;
    } else if y2 < y1 {
        assert(y2 * w + w <= y1 * w) by (nonlinear_arith)
            requires
                y2 < y1,
                0 < w,
        ;
    }
}

/// Every index of the grid belongs to one position.
pub proof fn lemma_idx_onto(w: int, h: int, i: int)
    requires
        0 < w,
        0 <= i < w * h,
    ensures
        in_grid(w, h, i % w, i / w),
        idx(w, i % w, i / w) == i,
{
    assert(i / w < h) by (nonlinear_arith)
        requires
            0 < w,
            0 <= i < w * h,
    ;
    assert(0 <= i / w) by (nonlinear_arith)
        requires
            0 < w,
            0 <= i,
    ;
    assert((i / w) * w + i % w == i) by (nonlinear_arith)
        requires
            0 < w,
    ;
}

} // verus!
