use vstd::prelude::*;

use crate::board::BoardView;
use crate::grid::{
    idx, in_grid, is_neighbor, lemma_adjacency_at, lemma_idx_bounds, lemma_idx_injective,
    lemma_idx_onto, lemma_zero_count_neighbor,
};
use crate::tile::Tile;

verus! {

impl BoardView {
    /// A hidden, unflagged cell on the grid: one that a reveal may open.
    pub open spec fn openable(self, x: int, y: int) -> bool {
        self.contains(x, y) && !self.cell(x, y).is_revealed && !self.cell(x, y).is_flagged
    }

    /// A safe cell with no mine around it: opening it opens its neighbours.
    pub open spec fn spreads(self, x: int, y: int) -> bool {
        !self.cell(x, y).is_mine && self.cell(x, y).adjacent_mines == 0
    }

    /// `p` walks from (x0, y0) to (x, y) over hidden, unflagged cells, each
    /// step leaving a safe cell with no mine around it for a neighbour.
    pub open spec fn is_opening_path(self, p: Seq<(int, int)>, x0: int, y0: int, x: int, y: int) -> bool {
        &&& p.len() >= 1
        &&& p[0] == (x0, y0)
        &&& p.last() == (x, y)
        &&& forall|k: int| 0 <= k < p.len() ==> self.openable(#[trigger] p[k].0, p[k].1)
        &&& forall|k: int|
            0 <= k < p.len() - 1 ==> self.spreads(#[trigger] p[k].0, p[k].1) && is_neighbor(
                p[k].0,
                p[k].1,
                p[k + 1].0,
                p[k + 1].1,
            )
    }

    /// A reveal at (x0, y0) opens (x, y): the start itself, if it is hidden
    /// and unflagged, and every hidden, unflagged cell reached from it by
    /// stepping from safe cells with no mine around them to their neighbours.
    pub open spec fn opens(self, x0: int, y0: int, x: int, y: int) -> bool {
        exists|p: Seq<(int, int)>| self.is_opening_path(p, x0, y0, x, y)
    }

    /// The cells after a reveal at (x0, y0): what it opens is revealed.
    pub open spec fn reveal_cells(self, x0: int, y0: int) -> Seq<Tile> {
        Seq::new(
            self.cells.len(),
            |i: int|
                Tile {
                    is_revealed: self.cells[i].is_revealed || self.opens(
                        x0,
                        y0,
                        i % self.width,
                        i / self.width,
                    ),
                    ..self.cells[i]
                },
        )
    }
}

/// A reveal at a start that does not spread opens the start alone.
pub proof fn lemma_opens_only_start(v: BoardView, x0: int, y0: int, x: int, y: int)
    requires
        !v.spreads(x0, y0),
        v.opens(x0, y0, x, y),
    ensures
        x == x0 && y == y0,
{
    let p = choose|p: Seq<(int, int)>| v.is_opening_path(p, x0, y0, x, y);
    if p.len() > 1 {
        assert(v.spreads(p[0].0, p[0].1));
    }
}

/// A reveal where nothing can be opened opens nothing.
pub proof fn lemma_opens_nothing(v: BoardView, x0: int, y0: int, x: int, y: int)
    requires
        !v.openable(x0, y0),
    ensures
        !v.opens(x0, y0, x, y),
{
    if v.opens(x0, y0, x, y) {
        let p = choose|p: Seq<(int, int)>| v.is_opening_path(p, x0, y0, x, y);
        assert(v.openable(p[0].0, p[0].1));
    }
}

/// A hidden, unflagged start opens itself.
pub proof fn lemma_opens_start(v: BoardView, x0: int, y0: int)
    requires
        v.openable(x0, y0),
    ensures
        v.opens(x0, y0, x0, y0),
{
    let p = seq![(x0, y0)];
    assert(v.is_opening_path(p, x0, y0, x0, y0));
}

/// An opened cell that spreads opens each hidden, unflagged neighbour.
pub proof fn lemma_opens_extend(v: BoardView, x0: int, y0: int, x: int, y: int, nx: int, ny: int)
    requires
        v.opens(x0, y0, x, y),
        v.spreads(x, y),
        is_neighbor(x, y, nx, ny),
        v.openable(nx, ny),
    ensures
        v.opens(x0, y0, nx, ny),
{
    let p = choose|p: Seq<(int, int)>| v.is_opening_path(p, x0, y0, x, y);
    let q = p.push((nx, ny));
    assert forall|k: int| 0 <= k < q.len() implies v.openable(#[trigger] q[k].0, q[k].1) by {
        if k < p.len() {
            assert(q[k] == p[k]);
        }
    }
    assert forall|k: int| 0 <= k < q.len() - 1 implies v.spreads(#[trigger] q[k].0, q[k].1)
        && is_neighbor(q[k].0, q[k].1, q[k + 1].0, q[k + 1].1) by {
        assert(q[k] == p[k]);
        if k < p.len() - 1 {
            assert(q[k + 1] == p[k + 1]);
        }
    }
    assert(v.is_opening_path(q, x0, y0, nx, ny));
}

/// A cell next to one with no mine around it holds no mine.
pub proof fn lemma_spreads_neighbor_safe(v: BoardView, x: int, y: int, nx: int, ny: int)
    requires
        v.wf(),
        v.contains(x, y),
        v.spreads(x, y),
        v.contains(nx, ny),
        is_neighbor(x, y, nx, ny),
    ensures
        !v.cell(nx, ny).is_mine,
{
    lemma_adjacency_at(v.cells, v.width, v.height, x, y);
    lemma_zero_count_neighbor(v.cells, v.width, v.height, x, y, nx, ny);
}

/// (a, b) was hidden in `o` and is revealed in `v`.
pub open spec fn newly(o: BoardView, v: BoardView, a: int, b: int) -> bool {
    v.cell(a, b).is_revealed && !o.cell(a, b).is_revealed
}

/// Every on-grid neighbour of (a, b) that carries no flag is revealed.
pub open spec fn around_open(v: BoardView, a: int, b: int) -> bool {
    forall|c: int, d: int|
        #![trigger v.cell(c, d)]
        v.contains(c, d) && is_neighbor(a, b, c, d) && !v.cell(c, d).is_flagged ==> v.cell(
            c,
            d,
        ).is_revealed
}

/// (a, b) is off the grid, flagged or revealed: a flood has nothing to do there.
pub open spec fn covered(v: BoardView, a: int, b: int) -> bool {
    !v.contains(a, b) || v.cell(a, b).is_flagged || v.cell(a, b).is_revealed
}

/// Some entry of the worklist is (a, b).
pub open spec fn in_stack(st: Seq<(usize, usize)>, a: int, b: int) -> bool {
    exists|k: int| 0 <= k < st.len() && (#[trigger] st[k]).0 == a && st[k].1 == b
}

/// A flood from (x0, y0) on board `o` has reached `v`: nothing revealed has
/// been hidden again, and everything newly revealed lies in the region.
pub open spec fn flood_sound(o: BoardView, v: BoardView, x0: int, y0: int) -> bool {
    &&& v.cell(x0, y0).is_revealed
    &&& forall|a: int, b: int|
        #![trigger v.cell(a, b)]
        v.contains(a, b) ==> (o.cell(a, b).is_revealed ==> v.cell(a, b).is_revealed) && (v.cell(
            a,
            b,
        ).is_revealed ==> o.cell(a, b).is_revealed || o.opens(x0, y0, a, b))
}

/// Each worklist entry is a newly revealed cell that spreads.
pub open spec fn stack_ok(o: BoardView, v: BoardView, st: Seq<(usize, usize)>) -> bool {
    forall|k: int|
        0 <= k < st.len() ==> v.contains((#[trigger] st[k]).0 as int, st[k].1 as int) && newly(
            o,
            v,
            st[k].0 as int,
            st[k].1 as int,
        ) && o.spreads(st[k].0 as int, st[k].1 as int)
}

/// Every newly revealed cell that spreads, but (ea, eb), is waiting on the
/// worklist or has all its unflagged neighbours revealed.
pub open spec fn flood_closed(o: BoardView, v: BoardView, st: Seq<(usize, usize)>, ea: int, eb: int) -> bool {
    forall|a: int, b: int|
        #![trigger v.cell(a, b)]
        v.contains(a, b) && newly(o, v, a, b) && o.spreads(a, b) && !(a == ea && b == eb)
            ==> in_stack(st, a, b) || around_open(v, a, b)
}

/// Along an opening path every cell is revealed, once the flood is closed.
proof fn lemma_path_revealed(o: BoardView, v: BoardView, p: Seq<(int, int)>, x0: int, y0: int, x: int, y: int, k: int)
    requires
        o.wf(),
        o.same_layout(v),
        o.is_opening_path(p, x0, y0, x, y),
        flood_sound(o, v, x0, y0),
        flood_closed(o, v, Seq::empty(), -1, -1),
        0 <= k < p.len(),
    ensures
        v.cell(p[k].0, p[k].1).is_revealed,
    decreases k,
{
    if k > 0 {
        lemma_path_revealed(o, v, p, x0, y0, x, y, k - 1);
        let (a, b) = p[k - 1];
        let (c, d) = p[k];
        assert(o.openable(a, b));
        assert(o.openable(c, d));
        assert(o.spreads(a, b) && is_neighbor(a, b, c, d));
        lemma_idx_bounds(o.width, o.height, a, b);
        lemma_idx_bounds(o.width, o.height, c, d);
        assert(v.cell(a, b) == v.cells[idx(o.width, a, b)]);
        assert(newly(o, v, a, b));
        assert(!in_stack(Seq::<(usize, usize)>::empty(), a, b));
        assert(around_open(v, a, b));
        assert(!v.cell(c, d).is_flagged);
    }
}

/// Once the worklist is empty, the cells are exactly those a reveal at
/// (x0, y0) produces.
pub proof fn lemma_flood_done(o: BoardView, v: BoardView, x0: int, y0: int)
    requires
        o.wf(),
        o.same_layout(v),
        o.openable(x0, y0),
        flood_sound(o, v, x0, y0),
        flood_closed(o, v, Seq::empty(), -1, -1),
    ensures
        v.cells == o.reveal_cells(x0, y0),
{
    assert forall|i: int| 0 <= i < v.cells.len() implies v.cells[i] == o.reveal_cells(x0, y0)[i] by {
        lemma_idx_onto(o.width, o.height, i);
        let (a, b) = (i % o.width, i / o.width);
        assert(v.cell(a, b) == v.cells[i]);
        if o.opens(x0, y0, a, b) {
            let p = choose|p: Seq<(int, int)>| o.is_opening_path(p, x0, y0, a, b);
            lemma_path_revealed(o, v, p, x0, y0, a, b, p.len() - 1);
        }
    }
    assert(v.cells =~= o.reveal_cells(x0, y0));
}

/// Changing the cell at (x, y) leaves every other position as it was.
pub proof fn lemma_cell_update(v: BoardView, w: BoardView, x: int, y: int, t: Tile)
    requires
        v.width == w.width,
        v.height == w.height,
        v.cells.len() == v.width * v.height,
        v.contains(x, y),
        w.cells == v.cells.update(idx(v.width, x, y), t),
    ensures
        forall|a: int, b: int|
            #![trigger w.cell(a, b)]
            v.contains(a, b) ==> w.cell(a, b) == if a == x && b == y {
                t
            } else {
                v.cell(a, b)
            },
{
    lemma_idx_bounds(v.width, v.height, x, y);
    assert forall|a: int, b: int|
        #![trigger w.cell(a, b)]
        v.contains(a, b) implies w.cell(a, b) == if a == x && b == y {
        t
    } else {
        v.cell(a, b)
    } by {
        lemma_idx_bounds(v.width, v.height, a, b);
        if idx(v.width, a, b) == idx(v.width, x, y) {
            lemma_idx_injective(v.width, v.height, a, b, x, y);
        }
    }
}

} // verus!
