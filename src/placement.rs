use vstd::prelude::*;

use crate::count::{count, lemma_count_take, lemma_count_update, p_mine};
use crate::grid::{
    adjacency_ok, adjacent_count, cell_at, idx, in_grid, lemma_idx_bounds, lemma_idx_injective,
    lemma_idx_onto, lemma_same_mines_adjacent, mine_at, neighbor_cells,
};
use crate::random::roll_below;
use crate::tile::Tile;

verus! {

/// How many positions weighted placement draws before it gives up and places
/// the remaining mines uniformly.
pub const MAX_WEIGHTED_DRAWS: u32 = 100000;

/// No cell is revealed or flagged.
pub open spec fn untouched(s: Seq<Tile>) -> bool {
    forall|j: int| 0 <= j < s.len() ==> !(#[trigger] s[j]).is_revealed && !s[j].is_flagged
}

/// The cells have the same length and differ only in which hold mines.
pub open spec fn only_mines_added(s1: Seq<Tile>, s2: Seq<Tile>) -> bool {
    &&& s1.len() == s2.len()
    &&& forall|j: int|
        0 <= j < s1.len() ==> (#[trigger] s2[j]) == Tile { is_mine: s2[j].is_mine, ..s1[j] }
            && (s1[j].is_mine ==> s2[j].is_mine)
}

/// The cell `t` with a mine on it.
pub open spec fn with_mine(t: Tile) -> Tile {
    Tile { is_mine: true, ..t }
}

/// Cell `i` of `s` holds no mine and exactly `r` cells before it hold none:
/// it is the `r`-th mine-free cell, counting from zero in row-major order.
pub open spec fn nth_free(s: Seq<Tile>, r: int, i: int) -> bool {
    &&& 0 <= i < s.len()
    &&& !s[i].is_mine
    &&& i - count(s.take(i), p_mine()) == r
}

/// Whether weighted placement keeps a candidate cell. `mines_near` of its
/// `cells_near` on-grid neighbours hold mines, which makes the likelihood
/// `100 * mines_near / cells_near` percent; the candidate is kept when a draw
/// in `0..100` does not exceed that likelihood, rounded down.
pub fn weighted_accepts(mines_near: u8, cells_near: u8, draw: u8) -> (r: bool)
    ensures
        r == (draw as int * cells_near as int <= 100 * mines_near as int),
{
    proof {
        assert(draw as int * cells_near as int <= 255 * 255) by (nonlinear_arith)
            requires
                draw <= 255,
                cells_near <= 255,
        ;
    }
    (draw as u32) * (cells_near as u32) <= 100 * (mines_near as u32)
}

/// 1 when (x, y) is on the grid and holds a mine.
fn mine_at_exec(tiles: &Vec<Tile>, w: u8, h: u8, x: i32, y: i32) -> (r: u8)
    requires
        tiles@.len() == w as int * h as int,
        -1 <= x <= 256,
        -1 <= y <= 256,
    ensures
        r == mine_at(tiles@, w as int, h as int, x as int, y as int),
{
    if x < 0 || y < 0 || x >= w as i32 || y >= h as i32 {
        0
    } else {
        proof {
            lemma_idx_bounds(w as int, h as int, x as int, y as int);
            assert(y * w <= 255 * 255) by (nonlinear_arith)
                requires
                    0 <= y < 255,
                    w <= 255,
            ;
        }
        if tiles[(y as usize) * (w as usize) + (x as usize)].is_mine {
            1
        } else {
            0
        }
    }
}

/// 1 when (x, y) is on the grid.
fn cell_at_exec(w: u8, h: u8, x: i32, y: i32) -> (r: u8)
    ensures
        r == cell_at(w as int, h as int, x as int, y as int),
{
    if x < 0 || y < 0 || x >= w as i32 || y >= h as i32 {
        0
    } else {
        1
    }
}

/// Number of mines around the on-grid cell (x, y).
pub(crate) fn count_adjacent(tiles: &Vec<Tile>, w: u8, h: u8, x: u8, y: u8) -> (r: u8)
    requires
        tiles@.len() == w as int * h as int,
    ensures
        r == adjacent_count(tiles@, w as int, h as int, x as int, y as int),
{
    let (x, y) = (x as i32, y as i32);
    mine_at_exec(tiles, w, h, x - 1, y - 1) + mine_at_exec(tiles, w, h, x, y - 1) + mine_at_exec(
        tiles,
        w,
        h,
        x + 1,
        y - 1,
    ) + mine_at_exec(tiles, w, h, x - 1, y) + mine_at_exec(tiles, w, h, x + 1, y) + mine_at_exec(
        tiles,
        w,
        h,
        x - 1,
        y + 1,
    ) + mine_at_exec(tiles, w, h, x, y + 1) + mine_at_exec(tiles, w, h, x + 1, y + 1)
}

/// Number of on-grid neighbours of (x, y).
fn count_neighbors(w: u8, h: u8, x: u8, y: u8) -> (r: u8)
    ensures
        r == neighbor_cells(w as int, h as int, x as int, y as int),
{
    let (x, y) = (x as i32, y as i32);
    cell_at_exec(w, h, x - 1, y - 1) + cell_at_exec(w, h, x, y - 1) + cell_at_exec(w, h, x + 1, y - 1)
        + cell_at_exec(w, h, x - 1, y) + cell_at_exec(w, h, x + 1, y) + cell_at_exec(
        w,
        h,
        x - 1,
        y + 1,
    ) + cell_at_exec(w, h, x, y + 1) + cell_at_exec(w, h, x + 1, y + 1)
}

/// Puts a mine on cell `i`, which holds none.
fn put_mine(tiles: &mut Vec<Tile>, i: usize)
    requires
        i < old(tiles)@.len(),
        !old(tiles)@[i as int].is_mine,
    ensures
        final(tiles)@ == old(tiles)@.update(i as int, with_mine(old(tiles)@[i as int])),
        only_mines_added(old(tiles)@, final(tiles)@),
        count(final(tiles)@, p_mine()) == count(old(tiles)@, p_mine()) + 1,
{
    let t = tiles[i];
    let nt = Tile { is_mine: true, ..t };
    proof {
        lemma_count_update(tiles@, p_mine(), i as int, nt);
    }
    tiles[i] = nt;
}

/// Puts a mine on the cell that is the `r`-th, counting from zero in row-major
/// order, among those that hold none.
fn mine_nth_free(tiles: &mut Vec<Tile>, r: usize) -> (i: usize)
    requires
        r + count(old(tiles)@, p_mine()) < old(tiles)@.len(),
    ensures
        nth_free(old(tiles)@, r as int, i as int),
        final(tiles)@ == old(tiles)@.update(i as int, with_mine(old(tiles)@[i as int])),
        only_mines_added(old(tiles)@, final(tiles)@),
        count(final(tiles)@, p_mine()) == count(old(tiles)@, p_mine()) + 1,
{
    let n = tiles.len();
    let mut i: usize = 0;
    let mut seen: usize = 0;
    while i < n
        invariant
            tiles@ == old(tiles)@,
            n == tiles@.len(),
            0 <= i <= n,
            seen <= r,
            seen + count(tiles@.take(i as int), p_mine()) == i,
            r + count(tiles@, p_mine()) < n,
        decreases n - i,
    {
        proof {
            lemma_count_take(tiles@, p_mine(), i as int);
        }
        if !tiles[i].is_mine {
            if seen == r {
                put_mine(tiles, i);
                return i;
            }
            seen = seen + 1;
        }
        i = i + 1;
    }
    proof {
        assert(tiles@.take(n as int) =~= tiles@);
    }
    0
}

/// Raises the number of mines from `placed` to `target`, each new mine on a
/// cell drawn uniformly among those that hold none.
pub(crate) fn place_uniform(tiles: &mut Vec<Tile>, placed: usize, target: usize)
    requires
        count(old(tiles)@, p_mine()) == placed,
        placed <= target < old(tiles)@.len(),
    ensures
        only_mines_added(old(tiles)@, final(tiles)@),
        count(final(tiles)@, p_mine()) == target,
{
    let ghost s0 = tiles@;
    let mut k: usize = placed;
    while k < target
        invariant
            only_mines_added(s0, tiles@),
            count(tiles@, p_mine()) == k,
            placed <= k <= target,
            target < tiles@.len(),
        decreases target - k,
    {
        let free = tiles.len() - k;
        let r = rand::random::<usize>() % free;
        let ghost before = tiles@;
        let _ = mine_nth_free(tiles, r);
        proof {
            assert forall|j: int| 0 <= j < s0.len() implies (#[trigger] tiles@[j]) == Tile {
                is_mine: tiles@[j].is_mine,
                ..s0[j]
            } && (s0[j].is_mine ==> tiles@[j].is_mine) by {
                assert(before[j] == Tile { is_mine: before[j].is_mine, ..s0[j] });
            }
        }
        k = k + 1;
    }
}

/// One attempt of weighted placement at (x, y) with a draw in `0..100`: a
/// mine goes there exactly when the cell holds none and `weighted_accepts`
/// keeps it, given the mines and cells around it.
pub(crate) fn weighted_attempt(tiles: &mut Vec<Tile>, w: u8, h: u8, x: u8, y: u8, draw: u8) -> (placed:
    bool)
    requires
        old(tiles)@.len() == w as int * h as int,
        x < w,
        y < h,
    ensures
        placed == (!old(tiles)@[idx(w as int, x as int, y as int)].is_mine && draw as int
            * neighbor_cells(w as int, h as int, x as int, y as int) <= 100 * adjacent_count(
            old(tiles)@,
            w as int,
            h as int,
            x as int,
            y as int,
        )),
        placed ==> final(tiles)@ == old(tiles)@.update(
            idx(w as int, x as int, y as int),
            with_mine(old(tiles)@[idx(w as int, x as int, y as int)]),
        ),
        !placed ==> final(tiles)@ == old(tiles)@,
        only_mines_added(old(tiles)@, final(tiles)@),
        count(final(tiles)@, p_mine()) == count(old(tiles)@, p_mine()) + if placed {
            1int
        } else {
            0int
        },
{
    proof {
        lemma_idx_bounds(w as int, h as int, x as int, y as int);
        assert(y * w <= 255 * 255) by (nonlinear_arith)
            requires
                y < 255,
                w <= 255,
        ;
    }
    let i = (y as usize) * (w as usize) + (x as usize);
    if tiles[i].is_mine {
        return false;
    }
    let mines_near = count_adjacent(tiles, w, h, x, y);
    let cells_near = count_neighbors(w, h, x, y);
    if weighted_accepts(mines_near, cells_near, draw) {
        put_mine(tiles, i);
        true
    } else {
        false
    }
}

/// Places up to `target` mines on a board without any, preferring cells whose
/// neighbourhood already holds mines, in at most `MAX_WEIGHTED_DRAWS`
/// attempts. Returns how many mines it placed.
pub(crate) fn place_weighted(tiles: &mut Vec<Tile>, w: u8, h: u8, target: usize) -> (placed:
    usize)
    requires
        old(tiles)@.len() == w as int * h as int,
        w > 0,
        h > 0,
        count(old(tiles)@, p_mine()) == 0,
        target < old(tiles)@.len(),
    ensures
        only_mines_added(old(tiles)@, final(tiles)@),
        count(final(tiles)@, p_mine()) == placed,
        placed <= target,
{
    let ghost s0 = tiles@;
    let mut placed: usize = 0;
    let mut draws: u32 = 0;
    while placed < target && draws < MAX_WEIGHTED_DRAWS
        invariant
            only_mines_added(s0, tiles@),
            count(tiles@, p_mine()) == placed,
            placed <= target,
            target < tiles@.len(),
            tiles@.len() == w as int * h as int,
            w > 0,
            h > 0,
        decreases MAX_WEIGHTED_DRAWS - draws,
    {
        draws = draws + 1;
        let x = roll_below(w);
        let y = roll_below(h);
        let draw = roll_below(100);
        let ghost before = tiles@;
        if weighted_attempt(tiles, w, h, x, y, draw) {
            placed = placed + 1;
        }
        proof {
            assert forall|j: int| 0 <= j < s0.len() implies (#[trigger] tiles@[j]) == Tile {
                is_mine: tiles@[j].is_mine,
                ..s0[j]
            } && (s0[j].is_mine ==> tiles@[j].is_mine) by {
                assert(before[j] == Tile { is_mine: before[j].is_mine, ..s0[j] });
            }
        }
    }
    placed
}

/// Records in every cell the number of mines around it.
pub(crate) fn calculate_adjacent_mines(tiles: &mut Vec<Tile>, w: u8, h: u8)
    requires
        old(tiles)@.len() == w as int * h as int,
        w > 0,
        h > 0,
    ensures
        final(tiles)@.len() == old(tiles)@.len(),
        forall|j: int|
            0 <= j < old(tiles)@.len() ==> (#[trigger] final(tiles)@[j]) == (Tile {
                adjacent_mines: final(tiles)@[j].adjacent_mines,
                ..old(tiles)@[j]
            }),
        adjacency_ok(final(tiles)@, w as int, h as int),
{
    let ghost s0 = tiles@;
    let n = tiles.len();
    let mut i: usize = 0;
    while i < n
        invariant
            n == tiles@.len(),
            n == s0.len(),
            n == w as int * h as int,
            w > 0,
            h > 0,
            0 <= i <= n,
            forall|j: int|
                0 <= j < n ==> (#[trigger] tiles@[j]) == (Tile {
                    adjacent_mines: tiles@[j].adjacent_mines,
                    ..s0[j]
                }),
            forall|j: int|
                0 <= j < i ==> (#[trigger] tiles@[j]).adjacent_mines == adjacent_count(
                    s0,
                    w as int,
                    h as int,
                    j % (w as int),
                    j / (w as int),
                ),
        decreases n - i,
    {
        let x = i % (w as usize);
        let y = i / (w as usize);
        proof {
            lemma_idx_onto(w as int, h as int, i as int);
            assert forall|j: int| 0 <= j < n implies #[trigger] tiles@[j].is_mine == s0[j].is_mine by {
                assert(tiles@[j] == Tile { adjacent_mines: tiles@[j].adjacent_mines, ..s0[j] });
            }
            lemma_same_mines_adjacent(tiles@, s0, w as int, h as int, x as int, y as int);
        }
        let a = count_adjacent(tiles, w, h, x as u8, y as u8);
        let t = tiles[i];
        tiles[i] = Tile { adjacent_mines: a, ..t };
        i = i + 1;
    }
    proof {
        reveal(adjacency_ok);
        assert forall|j: int| 0 <= j < n implies #[trigger] tiles@[j].is_mine == s0[j].is_mine by {
            assert(tiles@[j] == Tile { adjacent_mines: tiles@[j].adjacent_mines, ..s0[j] });
        }
        assert forall|x: int, y: int|
            #![trigger tiles@[idx(w as int, x, y)]]
            in_grid(w as int, h as int, x, y) implies tiles@[idx(
            w as int,
            x,
            y,
        )].adjacent_mines == adjacent_count(tiles@, w as int, h as int, x, y) by {
            let j = idx(w as int, x, y);
            lemma_idx_bounds(w as int, h as int, x, y);
            lemma_idx_onto(w as int, h as int, j);
            lemma_idx_injective(w as int, h as int, x, y, j % (w as int), j / (w as int));
            lemma_same_mines_adjacent(tiles@, s0, w as int, h as int, x, y);
        }
    }
}

} // verus!
