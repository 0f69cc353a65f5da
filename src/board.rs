use vstd::prelude::*;

use std::time::Instant;

use crate::count::{
    count, lemma_count_bound, lemma_count_prefix, lemma_count_take, lemma_count_update,
    lemma_count_zero, p_flagged, p_flagged_mine, p_hidden, p_mine, p_safe_hidden, p_safe_revealed,
};
use crate::flood::{
    around_open, covered, flood_closed, flood_sound, in_stack, lemma_cell_update, lemma_flood_done,
    lemma_opens_extend, lemma_opens_nothing, lemma_opens_only_start, lemma_opens_start,
    lemma_spreads_neighbor_safe, newly, stack_ok,
};
use crate::grid::{adjacency_ok, idx, in_grid, is_neighbor, lemma_adjacency_kept, lemma_idx_bounds};
use crate::placement::{calculate_adjacent_mines, place_uniform, place_weighted, untouched};
use crate::tile::{BoardError, Tile};

verus! {

/// The state of one game: the grid, its counters and its clock. Dimensions,
/// mine count and flag count are bytes; the cells are stored row by row.
pub struct Board {
    tiles: Vec<Tile>,
    width: u8,
    height: u8,
    mines: u8,
    flags: u8,
    score: u64,
    placement_fallback: bool,
    pure_random: bool,
    start_time: Instant,
    end_time: Option<Instant>,
}

/// Mathematical model of a board: its cells in row-major order and its counters.
pub struct BoardView {
    pub cells: Seq<Tile>,
    pub width: int,
    pub height: int,
    pub mines: int,
    pub flags: int,
    pub score: int,
    /// Whether mines were placed uniformly rather than by the weighted strategy.
    pub pure_random: bool,
    /// Whether weighted placement gave up and placed the remaining mines uniformly.
    pub placement_fallback: bool,
    pub start_time: Instant,
    /// Set once, by the first end-of-game check.
    pub end_time: Option<Instant>,
}

impl BoardView {
    pub open spec fn contains(self, x: int, y: int) -> bool {
        in_grid(self.width, self.height, x, y)
    }

    pub open spec fn cell(self, x: int, y: int) -> Tile {
        self.cells[idx(self.width, x, y)]
    }

    /// The invariant every board keeps between operations. The score leaves
    /// room for one more point per hidden safe cell.
    pub open spec fn wf(self) -> bool {
        &&& 1 <= self.width <= 255
        &&& 1 <= self.height <= 255
        &&& self.cells.len() == self.width * self.height
        &&& 0 <= self.mines < self.width * self.height
        &&& self.mines <= 255
        &&& count(self.cells, p_mine()) == self.mines
        &&& count(self.cells, p_flagged()) == self.flags
        &&& 0 <= self.flags <= self.mines
        &&& adjacency_ok(self.cells, self.width, self.height)
        &&& self.score + count(self.cells, p_safe_hidden()) <= u64::MAX
    }

    /// The same board, with the end of the game stamped if it was not yet.
    pub open spec fn stamped(self, other: BoardView) -> bool {
        &&& other == BoardView { end_time: other.end_time, ..self }
        &&& other.end_time is Some
        &&& self.end_time is Some ==> other.end_time == self.end_time
    }

    /// Every safe cell is revealed.
    pub open spec fn all_safe_revealed(self) -> bool {
        forall|i: int|
            0 <= i < self.cells.len() ==> !(#[trigger] self.cells[i]).is_mine
                ==> self.cells[i].is_revealed
    }

    /// Every mine revealed, all else as it was.
    pub open spec fn mines_shown(self) -> Seq<Tile> {
        self.cells.map_values(
            |t: Tile|
                if t.is_mine {
                    Tile { is_revealed: true, ..t }
                } else {
                    t
                },
        )
    }

    /// Same placement mode and clock.
    pub open spec fn same_frame(self, other: BoardView) -> bool {
        &&& self.pure_random == other.pure_random
        &&& self.placement_fallback == other.placement_fallback
        &&& self.start_time == other.start_time
        &&& self.end_time == other.end_time
    }

    /// Same grid and counters, except for which cells are revealed and the score.
    pub open spec fn same_layout(self, other: BoardView) -> bool {
        &&& self.width == other.width
        &&& self.height == other.height
        &&& self.mines == other.mines
        &&& self.flags == other.flags
        &&& self.cells.len() == other.cells.len()
        &&& forall|i: int|
            #![trigger other.cells[i]]
            0 <= i < self.cells.len() ==> {
                &&& other.cells[i].is_mine == self.cells[i].is_mine
                &&& other.cells[i].is_flagged == self.cells[i].is_flagged
                &&& other.cells[i].adjacent_mines == self.cells[i].adjacent_mines
            }
    }
}

/// Whether a board of these dimensions and mine count can be built: each
/// dimension between 1 and 255, at most 255 mines, and at least one safe cell.
pub open spec fn valid_config(width: int, height: int, mines: int) -> bool {
    &&& 1 <= width <= 255
    &&& 1 <= height <= 255
    &&& 0 <= mines <= 255
    &&& mines < width * height
}

impl View for Board {
    type V = BoardView;

    closed spec fn view(&self) -> BoardView {
        BoardView {
            cells: self.tiles@,
            width: self.width as int,
            height: self.height as int,
            mines: self.mines as int,
            flags: self.flags as int,
            score: self.score as int,
            pure_random: self.pure_random,
            placement_fallback: self.placement_fallback,
            start_time: self.start_time,
            end_time: self.end_time,
        }
    }
}

impl Board {
    pub open spec fn wf(&self) -> bool {
        self@.wf()
    }

    /// A board has at most 255 * 255 cells.
    proof fn lemma_len_bound(&self)
        requires
            self.wf(),
        ensures
            self.tiles@.len() <= 65025,
    {
        assert(self.tiles@.len() <= 65025) by (nonlinear_arith)
            requires
                self.tiles@.len() == self.width as int * self.height as int,
                self.width <= 255,
                self.height <= 255,
        ;
    }

    /// A fresh board of `width` columns and `height` rows holding `mines`
    /// mines, placed uniformly when `pure_random` holds and by the weighted
    /// strategy otherwise. Every cell is hidden and unflagged and records the
    /// number of mines around it.
    pub fn new(width: usize, height: usize, mines: usize, pure_random: bool) -> (r: Result<
        Board,
        BoardError,
    >)
        ensures
            r is Err <==> !valid_config(width as int, height as int, mines as int),
            r matches Err(e) ==> e == BoardError::InvalidConfiguration,
            r matches Ok(b) ==> {
                &&& b.wf()
                &&& b@.width == width
                &&& b@.height == height
                &&& b@.mines == mines
                &&& count(b@.cells, p_mine()) == mines
                &&& b@.flags == 0
                &&& b@.score == 0
                &&& untouched(b@.cells)
                &&& b@.pure_random == pure_random
                &&& (pure_random ==> !b@.placement_fallback)
                &&& (mines == 0 ==> !b@.placement_fallback)
                &&& b@.end_time is None
            },
    {
        if width == 0 || height == 0 || width > 255 || height > 255 || mines > 255 {
            return Err(BoardError::InvalidConfiguration);
        }
        proof {
            assert(width * height <= 255 * 255) by (nonlinear_arith)
                requires
                    width <= 255,
                    height <= 255,
            ;
        }
        let n = width * height;
        if mines >= n {
            return Err(BoardError::InvalidConfiguration);
        }
        let (w, h) = (width as u8, height as u8);
        let mut tiles: Vec<Tile> = Vec::new();
        let mut k: usize = 0;
        while k < n
            invariant
                tiles@.len() == k,
                k <= n,
                forall|j: int| 0 <= j < k ==> #[trigger] tiles@[j] == Tile::blank_spec(),
            decreases n - k,
        {
            tiles.push(Tile::blank());
            k = k + 1;
        }
        let ghost s0 = tiles@;
        proof {
            lemma_count_zero(s0, p_mine());
        }
        // Weighted placement that runs out of attempts leaves the remaining
        // mines to uniform placement.
        let placed = if pure_random {
            0
        } else {
            place_weighted(&mut tiles, w, h, mines)
        };
        let fell_back = !pure_random && placed < mines;
        place_uniform(&mut tiles, placed, mines);
        proof {
            assert forall|j: int| 0 <= j < tiles@.len() implies !(#[trigger] tiles@[j]).is_revealed
                && !tiles@[j].is_flagged by {
                assert(tiles@[j] == Tile { is_mine: tiles@[j].is_mine, ..s0[j] });
            }
        }
        Ok(Board::assemble(tiles, w, h, mines as u8, pure_random, fell_back))
    }

    /// A fresh board whose mines lie where `layout`, in row-major order, says.
    /// Every cell is hidden and unflagged and records the number of mines
    /// around it.
    pub fn with_mines(width: usize, height: usize, layout: &Vec<bool>) -> (r: Result<
        Board,
        BoardError,
    >)
        ensures
            r is Err <==> layout@.len() != width * height || !valid_config(
                width as int,
                height as int,
                count_true(layout@) as int,
            ),
            r matches Err(e) ==> e == BoardError::InvalidConfiguration,
            r matches Ok(b) ==> {
                &&& b.wf()
                &&& b@.width == width
                &&& b@.height == height
                &&& b@.mines == count_true(layout@)
                &&& forall|i: int| 0 <= i < layout@.len() ==> #[trigger] b@.cells[i].is_mine == layout@[i]
                &&& b@.flags == 0
                &&& b@.score == 0
                &&& untouched(b@.cells)
                &&& !b@.pure_random
                &&& !b@.placement_fallback
                &&& b@.end_time is None
            },
    {
        if width == 0 || height == 0 || width > 255 || height > 255 {
            return Err(BoardError::InvalidConfiguration);
        }
        proof {
            assert(width * height <= 255 * 255) by (nonlinear_arith)
                requires
                    width <= 255,
                    height <= 255,
            ;
        }
        let n = width * height;
        if layout.len() != n {
            return Err(BoardError::InvalidConfiguration);
        }
        let mut tiles: Vec<Tile> = Vec::new();
        let mut mines: usize = 0;
        let mut k: usize = 0;
        while k < n
            invariant
                n == layout@.len(),
                tiles@.len() == k,
                k <= n,
                mines == count(tiles@, p_mine()),
                mines <= k,
                mines == count_true(layout@.take(k as int)),
                forall|j: int|
                    0 <= j < k ==> #[trigger] tiles@[j] == (Tile {
                        is_mine: layout@[j],
                        ..Tile::blank_spec()
                    }),
            decreases n - k,
        {
            let ghost before = tiles@;
            let mine = layout[k];
            tiles.push(Tile { is_mine: mine, ..Tile::blank() });
            proof {
                assert(tiles@.drop_last() =~= before);
                assert(layout@.take(k + 1).drop_last() =~= layout@.take(k as int));
            }
            if mine {
                mines = mines + 1;
            }
            k = k + 1;
        }
        proof {
            assert(layout@.take(n as int) =~= layout@);
        }
        if mines > 255 || mines >= n {
            return Err(BoardError::InvalidConfiguration);
        }
        Ok(Board::assemble(tiles, width as u8, height as u8, mines as u8, false, false))
    }

    /// Records the adjacent counts of freshly placed mines and starts the clock.
    fn assemble(
        tiles: Vec<Tile>,
        w: u8,
        h: u8,
        mines: u8,
        pure_random: bool,
        fell_back: bool,
    ) -> (b: Board)
        requires
            1 <= w,
            1 <= h,
            tiles@.len() == w as int * h as int,
            untouched(tiles@),
            count(tiles@, p_mine()) == mines,
            mines < tiles@.len(),
        ensures
            b.wf(),
            b@.width == w,
            b@.height == h,
            b@.mines == mines,
            forall|i: int| 0 <= i < tiles@.len() ==> #[trigger] b@.cells[i].is_mine == tiles@[i].is_mine,
            b@.flags == 0,
            b@.score == 0,
            untouched(b@.cells),
            b@.pure_random == pure_random,
            b@.placement_fallback == fell_back,
            b@.end_time is None,
    {
        let ghost s1 = tiles@;
        let mut tiles = tiles;
        calculate_adjacent_mines(&mut tiles, w, h);
        let board = Board {
            tiles,
            width: w,
            height: h,
            mines,
            flags: 0,
            score: 0,
            placement_fallback: fell_back,
            pure_random,
            start_time: Instant::now(),
            end_time: None,
        };
        proof {
            let s = board.tiles@;
            assert forall|j: int| 0 <= j < s.len() implies #[trigger] s[j].is_mine == s1[j].is_mine
                && !s[j].is_revealed && !s[j].is_flagged by {
                assert(s[j] == Tile { adjacent_mines: s[j].adjacent_mines, ..s1[j] });
            }
            lemma_count_zero(s, p_flagged());
            lemma_count_zero(s, p_safe_revealed());
            lemma_count_bound(s, p_safe_hidden());
            assert(s.len() <= 65025) by (nonlinear_arith)
                requires
                    s.len() == w as int * h as int,
                    w <= 255,
                    h <= 255,
            ;
            lemma_mine_count_same(s1, s);
        }
        board
    }

    /// Reveals hidden cell `i`, which holds no mine, and scores it.
    fn reveal_safe(&mut self, i: usize)
        requires
            old(self).wf(),
            i < old(self)@.cells.len(),
            !old(self)@.cells[i as int].is_mine,
            !old(self)@.cells[i as int].is_revealed,
        ensures
            final(self).wf(),
            old(self)@.same_layout(final(self)@),
            old(self)@.same_frame(final(self)@),
            final(self)@.cells == old(self)@.cells.update(
                i as int,
                Tile { is_revealed: true, ..old(self)@.cells[i as int] },
            ),
            count(final(self)@.cells, p_hidden()) + 1 == count(old(self)@.cells, p_hidden()),
            count(final(self)@.cells, p_safe_revealed()) == count(old(self)@.cells, p_safe_revealed())
                + 1,
            final(self)@.score == old(self)@.score + 1,
    {
        let t = self.tiles[i];
        let nt = Tile { is_revealed: true, ..t };
        proof {
            let s = self.tiles@;
            lemma_count_update(s, p_mine(), i as int, nt);
            lemma_count_update(s, p_flagged(), i as int, nt);
            lemma_count_update(s, p_safe_revealed(), i as int, nt);
            lemma_count_update(s, p_safe_hidden(), i as int, nt);
            lemma_count_update(s, p_hidden(), i as int, nt);
            assert forall|j: int| 0 <= j < s.len() implies #[trigger] s[j].is_mine == s.update(
                i as int,
                nt,
            )[j].is_mine && s[j].adjacent_mines == s.update(i as int, nt)[j].adjacent_mines by {}
            lemma_adjacency_kept(s, s.update(i as int, nt), self@.width, self@.height);
        }
        self.tiles[i] = nt;
        self.score = self.score + 1;
    }

    /// One step of a flood from (x0, y0): opens (nx, ny), a neighbour of the
    /// spreading cell (cx, cy), and queues it when it spreads in turn.
    fn open_neighbor(
        &mut self,
        cx: usize,
        cy: usize,
        nx: i32,
        ny: i32,
        stack: &mut Vec<(usize, usize)>,
        Ghost(o): Ghost<BoardView>,
        Ghost(x0): Ghost<int>,
        Ghost(y0): Ghost<int>,
    )
        requires
            old(self).wf(),
            o.wf(),
            o.openable(x0, y0),
            o.same_layout(old(self)@),
            flood_sound(o, old(self)@, x0, y0),
            stack_ok(o, old(self)@, old(stack)@),
            flood_closed(o, old(self)@, old(stack)@, cx as int, cy as int),
            old(self)@.contains(cx as int, cy as int),
            newly(o, old(self)@, cx as int, cy as int),
            o.spreads(cx as int, cy as int),
            is_neighbor(cx as int, cy as int, nx as int, ny as int),
        ensures
            final(self).wf(),
            o.same_layout(final(self)@),
            old(self)@.same_frame(final(self)@),
            flood_sound(o, final(self)@, x0, y0),
            stack_ok(o, final(self)@, final(stack)@),
            flood_closed(o, final(self)@, final(stack)@, cx as int, cy as int),
            newly(o, final(self)@, cx as int, cy as int),
            forall|a: int, b: int|
                #![trigger covered(final(self)@, a, b)]
                covered(old(self)@, a, b) ==> covered(final(self)@, a, b),
            covered(final(self)@, nx as int, ny as int),
            final(stack)@.len() + 9 * count(final(self)@.cells, p_hidden()) <= old(stack)@.len() + 9
                * count(old(self)@.cells, p_hidden()),
            final(self)@.score - count(final(self)@.cells, p_safe_revealed()) == old(self)@.score
                - count(old(self)@.cells, p_safe_revealed()),
    {
        if nx < 0 || ny < 0 || nx >= self.width as i32 || ny >= self.height as i32 {
            return;
        }
        let (ux, uy) = (nx as usize, ny as usize);
        let j = match self.index(ux, uy) {
            Ok(j) => j,
            Err(_) => return,
        };
        let t = self.tiles[j];
        if t.is_revealed || t.is_flagged {
            return;
        }
        let ghost v = self@;
        let ghost st = stack@;
        proof {
            assert(v.cell(nx as int, ny as int) == t);
            assert(o.cell(nx as int, ny as int).is_flagged == t.is_flagged);
            assert(o.openable(nx as int, ny as int));
            lemma_spreads_neighbor_safe(o, cx as int, cy as int, nx as int, ny as int);
        }
        self.reveal_safe(j);
        let ghost v2 = self@;
        proof {
            lemma_cell_update(v, v2, nx as int, ny as int, Tile { is_revealed: true, ..t });
            lemma_opens_extend(o, x0, y0, cx as int, cy as int, nx as int, ny as int);
        }
        if t.adjacent_mines == 0 {
            stack.push((ux, uy));
            proof {
                assert(stack@[stack@.len() - 1] == (ux, uy));
                assert(in_stack(stack@, nx as int, ny as int));
            }
        }
        proof {
            assert forall|a: int, b: int|
                #![trigger v2.cell(a, b)]
                v2.contains(a, b) implies (o.cell(a, b).is_revealed ==> v2.cell(a, b).is_revealed) && (
                v2.cell(a, b).is_revealed ==> o.cell(a, b).is_revealed || o.opens(x0, y0, a, b)) by {
                if !(a == nx && b == ny) {
                    assert(v2.cell(a, b) == v.cell(a, b));
                }
            }
            assert(v2.cell(x0, y0).is_revealed) by {
                assert(v.cell(x0, y0).is_revealed);
            }
            assert forall|a: int, b: int| #[trigger] covered(v, a, b) implies covered(v2, a, b) by {
                if v.contains(a, b) && !(a == nx && b == ny) {
                    assert(v2.cell(a, b) == v.cell(a, b));
                }
            }
            assert forall|k: int| 0 <= k < st.len() implies #[trigger] stack@[k] == st[k] by {}
            assert forall|a: int, b: int|
                #![trigger v2.cell(a, b)]
                v2.contains(a, b) && newly(o, v2, a, b) && o.spreads(a, b) && !(a == cx && b
                    == cy) implies in_stack(stack@, a, b) || around_open(v2, a, b) by {
                if !(a == nx && b == ny) {
                    assert(v2.cell(a, b) == v.cell(a, b));
                    if in_stack(st, a, b) {
                        let k = choose|k: int| 0 <= k < st.len() && (#[trigger] st[k]).0 == a && st[k].1 == b;
                        assert(stack@[k] == st[k]);
                    } else {
                        assert(around_open(v, a, b));
                        assert forall|c: int, d: int|
                            #![trigger v2.cell(c, d)]
                            v2.contains(c, d) && is_neighbor(a, b, c, d) && !v2.cell(c, d).is_flagged
                            implies v2.cell(c, d).is_revealed by {
                            assert(v.cell(c, d).is_flagged == v2.cell(c, d).is_flagged);
                        }
                    }
                }
            }
        }
    }

    /// Reveals the cell at column `x`, row `y`, and answers whether it holds
    /// a mine. A revealed or flagged cell is left alone. A safe cell with no
    /// mine around it opens its neighbours, and so on across the whole region
    /// that such cells connect: the cells revealed are exactly those that
    /// `reveal_cells` opens. Each safe cell revealed is worth one point; a
    /// mine is worth none.
    pub fn select_tile(&mut self, x: usize, y: usize) -> (r: Result<bool, BoardError>)
        requires
            old(self).wf(),
        ensures
            final(self).wf(),
            r is Ok <==> old(self)@.contains(x as int, y as int),
            r is Err ==> r == Err::<bool, BoardError>(BoardError::OutOfBounds) && final(self)@ == old(
                self,
            )@,
            r is Ok ==> {
                &&& r == Ok::<bool, BoardError>(
                    old(self)@.openable(x as int, y as int) && old(self)@.cell(
                        x as int,
                        y as int,
                    ).is_mine,
                )
                &&& final(self)@.cells == old(self)@.reveal_cells(x as int, y as int)
                &&& final(self)@.score == old(self)@.score + count(
                    final(self)@.cells,
                    p_safe_revealed(),
                ) - count(old(self)@.cells, p_safe_revealed())
                &&& old(self)@.same_layout(final(self)@)
                &&& old(self)@.same_frame(final(self)@)
            },
            !old(self)@.openable(x as int, y as int) ==> final(self)@ == old(self)@,
    {
        let i = match self.index(x, y) {
            Ok(i) => i,
            Err(e) => return Err(e),
        };
        let ghost o = self@;
        let ghost xi = x as int;
        let ghost yi = y as int;
        let t = self.tiles[i];
        if t.is_flagged || t.is_revealed {
            proof {
                assert forall|a: int, b: int| !o.opens(xi, yi, a, b) by {
                    lemma_opens_nothing(o, xi, yi, a, b);
                }
                assert(o.reveal_cells(xi, yi) =~= o.cells);
            }
            return Ok(false);
        }
        if t.is_mine {
            let nt = Tile { is_revealed: true, ..t };
            proof {
                let s = self.tiles@;
                lemma_count_update(s, p_mine(), i as int, nt);
                lemma_count_update(s, p_flagged(), i as int, nt);
                lemma_count_update(s, p_safe_revealed(), i as int, nt);
                lemma_count_update(s, p_safe_hidden(), i as int, nt);
                assert forall|j: int| 0 <= j < s.len() implies #[trigger] s[j].is_mine == s.update(
                    i as int,
                    nt,
                )[j].is_mine && s[j].adjacent_mines == s.update(i as int, nt)[j].adjacent_mines by {}
                lemma_adjacency_kept(s, s.update(i as int, nt), self@.width, self@.height);
            }
            self.tiles[i] = nt;
            proof {
                lemma_cell_update(o, self@, xi, yi, nt);
                lemma_opens_start(o, xi, yi);
                assert forall|a: int, b: int| #[trigger] o.opens(xi, yi, a, b) implies a == xi && b == yi by {
                    lemma_opens_only_start(o, xi, yi, a, b);
                }
                assert(flood_sound(o, self@, xi, yi));
                assert(flood_closed(o, self@, Seq::empty(), -1, -1));
                lemma_flood_done(o, self@, xi, yi);
            }
            return Ok(true);
        }
        self.reveal_safe(i);
        let mut stack: Vec<(usize, usize)> = Vec::new();
        if t.adjacent_mines == 0 {
            stack.push((x, y));
        }
        proof {
            lemma_cell_update(o, self@, xi, yi, Tile { is_revealed: true, ..t });
            lemma_opens_start(o, xi, yi);
            if t.adjacent_mines == 0 {
                assert(stack@[0] == (x, y));
            }
        }
        while stack.len() > 0
            invariant
                self.wf(),
                o.wf(),
                o.openable(xi, yi),
                o.same_layout(self@),
                o.same_frame(self@),
                flood_sound(o, self@, xi, yi),
                stack_ok(o, self@, stack@),
                flood_closed(o, self@, stack@, -1, -1),
                self@.score - count(self@.cells, p_safe_revealed()) == o.score - count(
                    o.cells,
                    p_safe_revealed(),
                ),
            decreases stack@.len() + 9 * count(self@.cells, p_hidden()),
        {
            let ghost st = stack@;
            let (cx, cy) = match stack.pop() {
                Some(c) => c,
                None => (x, y),
            };
            proof {
                assert(st[st.len() - 1] == (cx, cy));
                assert forall|k: int| 0 <= k < stack@.len() implies #[trigger] stack@[k] == st[k] by {}
                assert forall|a: int, b: int|
                    #![trigger self@.cell(a, b)]
                    self@.contains(a, b) && newly(o, self@, a, b) && o.spreads(a, b) && !(a
                        == cx && b == cy) implies in_stack(stack@, a, b) || around_open(
                    self@,
                    a,
                    b,
                ) by {
                    if in_stack(st, a, b) {
                        let k = choose|k: int| 0 <= k < st.len() && (#[trigger] st[k]).0 == a && st[k].1 == b;
                        if k < st.len() - 1 {
                            assert(stack@[k] == st[k]);
                        }
                    }
                }
            }
            let (ix, iy) = (cx as i32, cy as i32);
            self.open_neighbor(cx, cy, ix - 1, iy - 1, &mut stack, Ghost(o), Ghost(xi), Ghost(yi));
            self.open_neighbor(cx, cy, ix, iy - 1, &mut stack, Ghost(o), Ghost(xi), Ghost(yi));
            self.open_neighbor(cx, cy, ix + 1, iy - 1, &mut stack, Ghost(o), Ghost(xi), Ghost(yi));
            self.open_neighbor(cx, cy, ix - 1, iy, &mut stack, Ghost(o), Ghost(xi), Ghost(yi));
            self.open_neighbor(cx, cy, ix + 1, iy, &mut stack, Ghost(o), Ghost(xi), Ghost(yi));
            self.open_neighbor(cx, cy, ix - 1, iy + 1, &mut stack, Ghost(o), Ghost(xi), Ghost(yi));
            self.open_neighbor(cx, cy, ix, iy + 1, &mut stack, Ghost(o), Ghost(xi), Ghost(yi));
            self.open_neighbor(cx, cy, ix + 1, iy + 1, &mut stack, Ghost(o), Ghost(xi), Ghost(yi));
            proof {
                let v = self@;
                assert forall|c: int, d: int|
                    #![trigger v.cell(c, d)]
                    v.contains(c, d) && is_neighbor(cx as int, cy as int, c, d) && !v.cell(
                        c,
                        d,
                    ).is_flagged implies v.cell(c, d).is_revealed by {
                    assert(covered(v, c, d));
                }
            }
        }
        proof {
            assert(stack@ =~= Seq::<(usize, usize)>::empty());
            lemma_flood_done(o, self@, xi, yi);
        }
        Ok(false)
    }

    /// Index of an on-grid coordinate, or the error for one off the grid.
    fn index(&self, x: usize, y: usize) -> (r: Result<usize, BoardError>)
        requires
            self.wf(),
        ensures
            r is Ok <==> self@.contains(x as int, y as int),
            r matches Ok(i) ==> i == idx(self@.width, x as int, y as int) && i < self@.cells.len(),
            r matches Err(e) ==> e == BoardError::OutOfBounds,
    {
        if x >= self.width as usize || y >= self.height as usize {
            return Err(BoardError::OutOfBounds);
        }
        proof {
            lemma_idx_bounds(self@.width, self@.height, x as int, y as int);
            assert(y * self.width <= 255 * 255) by (nonlinear_arith)
                requires
                    y < 255,
                    self.width <= 255,
            ;
        }
        Ok(y * (self.width as usize) + x)
    }

    /// Toggles the flag on a hidden cell. Flagging stops once every mine could
    /// be flagged; unflagging is always allowed. Revealed cells are left alone.
    pub fn flag_tile(&mut self, x: usize, y: usize) -> (r: Result<(), BoardError>)
        requires
            old(self).wf(),
        ensures
            final(self).wf(),
            r is Ok <==> old(self)@.contains(x as int, y as int),
            r is Err ==> r == Err::<(), BoardError>(BoardError::OutOfBounds) && final(self)@ == old(
                self,
            )@,
            r is Ok ==> {
                let t = old(self)@.cell(x as int, y as int);
                let i = idx(old(self)@.width, x as int, y as int);
                if t.is_revealed || (!t.is_flagged && old(self)@.flags == old(self)@.mines) {
                    final(self)@ == old(self)@
                } else {
                    &&& final(self)@.cells == old(self)@.cells.update(
                        i,
                        Tile { is_flagged: !t.is_flagged, ..t },
                    )
                    &&& final(self)@.flags == old(self)@.flags + if t.is_flagged {
                        -1int
                    } else {
                        1int
                    }
                    &&& final(self)@.width == old(self)@.width
                    &&& final(self)@.height == old(self)@.height
                    &&& final(self)@.mines == old(self)@.mines
                    &&& final(self)@.score == old(self)@.score
                    &&& final(self)@.pure_random == old(self)@.pure_random
                    &&& final(self)@.placement_fallback == old(self)@.placement_fallback
                    &&& final(self)@.start_time == old(self)@.start_time
                    &&& final(self)@.end_time == old(self)@.end_time
                }
            },
    {
        let i = match self.index(x, y) {
            Ok(i) => i,
            Err(e) => return Err(e),
        };
        let t = self.tiles[i];
        if t.is_revealed || (!t.is_flagged && self.flags == self.mines) {
            return Ok(());
        }
        let nt = Tile { is_flagged: !t.is_flagged, ..t };
        proof {
            let s = self.tiles@;
            lemma_count_update(s, p_mine(), i as int, nt);
            lemma_count_update(s, p_flagged(), i as int, nt);
            lemma_count_update(s, p_safe_hidden(), i as int, nt);
            if t.is_flagged {
                assert(count(s, p_flagged()) >= 1);
            }
            assert forall|j: int| 0 <= j < s.len() implies #[trigger] s[j].is_mine == s.update(
                i as int,
                nt,
            )[j].is_mine && s[j].adjacent_mines == s.update(i as int, nt)[j].adjacent_mines by {}
            lemma_adjacency_kept(s, s.update(i as int, nt), self@.width, self@.height);
        }
        self.tiles[i] = nt;
        if t.is_flagged {
            self.flags = self.flags - 1;
        } else {
            self.flags = self.flags + 1;
        }
        Ok(())
    }

    /// Stamps the end of the game, the first time it is called.
    pub fn on_game_end(&mut self)
        ensures
            old(self)@.stamped(final(self)@),
    {
        if self.end_time.is_none() {
            self.end_time = Some(Instant::now());
        }
    }

    /// Whether every safe cell is revealed; flags and hidden mines do not
    /// matter. Stamps the end of the game first, whatever the answer.
    pub fn is_win(&mut self) -> (r: bool)
        requires
            old(self).wf(),
        ensures
            old(self)@.stamped(final(self)@),
            r == old(self)@.all_safe_revealed(),
    {
        self.on_game_end();
        let n = self.tiles.len();
        let mut i: usize = 0;
        while i < n
            invariant
                old(self)@.stamped(self@),
                n == self.tiles@.len(),
                0 <= i <= n,
                forall|j: int|
                    0 <= j < i ==> !(#[trigger] self.tiles@[j]).is_mine
                        ==> self.tiles@[j].is_revealed,
            decreases n - i,
        {
            let t = self.tiles[i];
            if !t.is_mine && !t.is_revealed {
                assert(self@.cells[i as int] == t);
                return false;
            }
            i = i + 1;
        }
        true
    }

    /// Ends a lost game: stamps the end, reveals every mine and awards ten
    /// points for each flagged mine, each time it is called. Safe cells stay
    /// as they are. The score must have room for the bonus and for the points
    /// still to be earned (`can_record_loss`).
    pub fn on_lost(&mut self)
        requires
            old(self).wf(),
            old(self)@.score + 10 * count(old(self)@.cells, p_flagged_mine()) + count(
                old(self)@.cells,
                p_safe_hidden(),
            ) <= u64::MAX,
        ensures
            final(self).wf(),
            old(self)@.same_layout(final(self)@),
            final(self)@.cells == old(self)@.mines_shown(),
            final(self)@.score == old(self)@.score + 10 * count(old(self)@.cells, p_flagged_mine()),
            old(self)@.end_time is Some ==> final(self)@.end_time == old(self)@.end_time,
            final(self)@.end_time is Some,
            final(self)@.start_time == old(self)@.start_time,
            final(self)@.pure_random == old(self)@.pure_random,
            final(self)@.placement_fallback == old(self)@.placement_fallback,
    {
        self.on_game_end();
        let ghost v0 = self@;
        let n = self.tiles.len();
        let mut i: usize = 0;
        while i < n
            invariant
                self.wf(),
                v0.wf(),
                v0.same_layout(self@),
                v0.score + 10 * count(v0.cells, p_flagged_mine()) + count(v0.cells, p_safe_hidden())
                    <= u64::MAX,
                n == self.tiles@.len(),
                0 <= i <= n,
                self@.end_time == v0.end_time,
                self@.start_time == v0.start_time,
                self@.pure_random == v0.pure_random,
                self@.placement_fallback == v0.placement_fallback,
                forall|j: int|
                    0 <= j < n ==> #[trigger] self.tiles@[j] == if j < i {
                        v0.mines_shown()[j]
                    } else {
                        v0.cells[j]
                    },
                count(self.tiles@, p_safe_hidden()) == count(v0.cells, p_safe_hidden()),
                self.score == v0.score + 10 * count(v0.cells.take(i as int), p_flagged_mine()),
            decreases n - i,
        {
            let t = self.tiles[i];
            proof {
                lemma_count_take(v0.cells, p_flagged_mine(), i as int);
                lemma_count_prefix(v0.cells, p_flagged_mine(), i + 1);
            }
            if t.is_mine {
                let nt = Tile { is_revealed: true, ..t };
                proof {
                    let s = self.tiles@;
                    lemma_count_update(s, p_mine(), i as int, nt);
                    lemma_count_update(s, p_flagged(), i as int, nt);
                    lemma_count_update(s, p_safe_hidden(), i as int, nt);
                    assert forall|j: int| 0 <= j < s.len() implies #[trigger] s[j].is_mine
                        == s.update(i as int, nt)[j].is_mine && s[j].adjacent_mines == s.update(
                        i as int,
                        nt,
                    )[j].adjacent_mines by {}
                    lemma_adjacency_kept(s, s.update(i as int, nt), self@.width, self@.height);
                }
                if t.is_flagged {
                    self.score = self.score + 10;
                }
                self.tiles[i] = nt;
            }
            i = i + 1;
        }
        proof {
            assert(v0.cells.take(n as int) =~= v0.cells);
            assert(self.tiles@ =~= v0.mines_shown());
        }
    }

    /// Whether the score has room for a loss now: for the bonus of every
    /// flagged mine and for the points still to be earned.
    pub fn can_record_loss(&self) -> (r: bool)
        requires
            self.wf(),
        ensures
            r == (self@.score + 10 * count(self@.cells, p_flagged_mine()) + count(
                self@.cells,
                p_safe_hidden(),
            ) <= u64::MAX),
    {
        proof {
            self.lemma_len_bound();
        }
        let n = self.tiles.len();
        let mut flagged_mines: u64 = 0;
        let mut safe_hidden: u64 = 0;
        let mut i: usize = 0;
        while i < n
            invariant
                n == self.tiles@.len(),
                n <= 65025,
                0 <= i <= n,
                flagged_mines == count(self.tiles@.take(i as int), p_flagged_mine()),
                safe_hidden == count(self.tiles@.take(i as int), p_safe_hidden()),
                flagged_mines <= i,
                safe_hidden <= i,
            decreases n - i,
        {
            proof {
                lemma_count_take(self.tiles@, p_flagged_mine(), i as int);
                lemma_count_take(self.tiles@, p_safe_hidden(), i as int);
                lemma_count_bound(self.tiles@.take(i as int), p_flagged_mine());
                lemma_count_bound(self.tiles@.take(i as int), p_safe_hidden());
            }
            let t = self.tiles[i];
            if t.is_mine && t.is_flagged {
                flagged_mines = flagged_mines + 1;
            }
            if !t.is_mine && !t.is_revealed {
                safe_hidden = safe_hidden + 1;
            }
            i = i + 1;
        }
        proof {
            assert(self.tiles@.take(n as int) =~= self.tiles@);
        }
        self.score <= u64::MAX - 10 * flagged_mines - safe_hidden
    }

    /// Number of mines on the board.
    pub fn get_mines(&self) -> (r: u8)
        ensures
            r == self@.mines,
    {
        self.mines
    }

    /// Number of flags currently placed.
    pub fn get_flags(&self) -> (r: u8)
        ensures
            r == self@.flags,
    {
        self.flags
    }

    /// Number of rows.
    pub fn get_height(&self) -> (r: u8)
        ensures
            r == self@.height,
    {
        self.height
    }

    /// Number of columns.
    pub fn get_width(&self) -> (r: u8)
        ensures
            r == self@.width,
    {
        self.width
    }

    /// Points earned so far.
    pub fn get_score(&self) -> (r: u64)
        ensures
            r == self@.score,
    {
        self.score
    }

    /// Whether mines were placed uniformly rather than by the weighted strategy.
    pub fn is_pure_random(&self) -> (r: bool)
        ensures
            r == self@.pure_random,
    {
        self.pure_random
    }

    /// Whether weighted placement gave up and placed the remaining mines uniformly.
    pub fn placement_fell_back(&self) -> (r: bool)
        ensures
            r == self@.placement_fallback,
    {
        self.placement_fallback
    }

    /// When the game started.
    pub fn get_start_time(&self) -> (r: Instant)
        ensures
            r == self@.start_time,
    {
        self.start_time
    }

    /// When the game ended, once an end-of-game check has run.
    pub fn get_end_time(&self) -> (r: Option<Instant>)
        ensures
            r == self@.end_time,
    {
        self.end_time
    }

    /// The cell at column `x`, row `y`.
    pub fn get_tile(&self, x: usize, y: usize) -> (r: Result<Tile, BoardError>)
        requires
            self.wf(),
        ensures
            r is Ok <==> self@.contains(x as int, y as int),
            r matches Ok(t) ==> t == self@.cell(x as int, y as int),
            r matches Err(e) ==> e == BoardError::OutOfBounds,
    {
        let i = match self.index(x, y) {
            Ok(i) => i,
            Err(e) => return Err(e),
        };
        Ok(self.tiles[i])
    }
}

/// Number of `true` entries.
pub open spec fn count_true(s: Seq<bool>) -> nat
    decreases s.len(),
{
    if s.len() == 0 {
        0
    } else {
        count_true(s.drop_last()) + if s.last() { 1nat } else { 0nat }
    }
}

/// Two sequences with mines in the same places hold as many mines.
proof fn lemma_mine_count_same(s1: Seq<Tile>, s2: Seq<Tile>)
    requires
        s1.len() == s2.len(),
        forall|j: int| 0 <= j < s1.len() ==> #[trigger] s1[j].is_mine == s2[j].is_mine,
    ensures
        count(s1, p_mine()) == count(s2, p_mine()),
    decreases s1.len(),
{
    if s1.len() > 0 {
        lemma_mine_count_same(s1.drop_last(), s2.drop_last());
    }
}

} // verus!
