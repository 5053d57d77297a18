//! The mathematical model of a puzzle: an arrangement of tiles on a grid
//! with one empty slot, the moves that are legal on it, and what can be
//! reached by them.

use vstd::prelude::*;

verus! {

/// Row-major index of the cell in column `x` of row `y`, in a grid that is
/// `x_cells` wide.
pub open spec fn cell_index(x: int, y: int, x_cells: int) -> int {
    x + y * x_cells
}

/// Two cells are adjacent when they lie in one row or one column, one
/// step apart.
pub open spec fn adjacent(ax: int, ay: int, bx: int, by: int) -> bool {
    ||| (ay == by && (ax - bx == 1 || bx - ax == 1))
    ||| (ax == bx && (ay - by == 1 || by - ay == 1))
}

/// What the cell with row-major index `i` holds in the solved arrangement
/// of `cells` cells: its own index, but for the last cell, which is empty.
pub open spec fn solved_tile(i: int, cells: int) -> Option<u32> {
    if i == cells - 1 {
        None
    } else {
        Some(i as u32)
    }
}

/// The solved arrangement of a grid of `cells` cells.
pub open spec fn solved_tiles(cells: int) -> Seq<Option<u32>> {
    Seq::new(cells as nat, |i: int| solved_tile(i, cells))
}

/// Whether `tiles` holds, in some order, what the solved arrangement of
/// `cells` cells holds: each of the tiles `0` to `cells - 2` once, and one
/// empty marker.
pub open spec fn is_arrangement(tiles: Seq<Option<u32>>, cells: int) -> bool {
    &&& tiles.len() == cells
    &&& tiles.to_multiset() == solved_tiles(cells).to_multiset()
}

/// An arrangement of tiles: the grid's shape, what each cell holds in
/// row-major order, and where the empty slot is.
pub struct Board {
    pub x_cells: int,
    pub y_cells: int,
    pub tiles: Seq<Option<u32>>,
    pub empty_x: int,
    pub empty_y: int,
}

impl Board {
    /// The number of cells.
    pub open spec fn cells(self) -> int {
        self.x_cells * self.y_cells
    }

    /// Whether `(x, y)` is a cell of the grid.
    pub open spec fn in_bounds(self, x: int, y: int) -> bool {
        0 <= x < self.x_cells && 0 <= y < self.y_cells
    }

    /// Row-major index of the cell `(x, y)`.
    pub open spec fn index(self, x: int, y: int) -> int {
        cell_index(x, y, self.x_cells)
    }

    /// Row-major index of the empty slot.
    pub open spec fn empty_index(self) -> int {
        self.index(self.empty_x, self.empty_y)
    }

    /// The invariant of every arrangement: the grid has at least one cell
    /// and no more than a `u32` can count, the empty slot is where the
    /// arrangement says it is, and the cells hold, as a multiset, exactly
    /// what the solved arrangement holds: each tile once and one empty
    /// marker.
    pub open spec fn wf(self) -> bool {
        &&& 1 <= self.x_cells
        &&& 1 <= self.y_cells
        &&& self.cells() <= u32::MAX
        &&& is_arrangement(self.tiles, self.cells())
        &&& self.in_bounds(self.empty_x, self.empty_y)
        &&& self.tiles[self.empty_index()] is None
    }

    /// The solved arrangement of a grid of the given shape.
    pub open spec fn solved(x_cells: int, y_cells: int) -> Board {
        Board {
            x_cells,
            y_cells,
            tiles: solved_tiles(x_cells * y_cells),
            empty_x: x_cells - 1,
            empty_y: y_cells - 1,
        }
    }

    /// Every cell holds the tile of its own row-major index, and the last
    /// cell is empty.
    pub open spec fn is_solved(self) -> bool {
        forall|i: int| 0 <= i < self.tiles.len() ==> self.tiles[i] == solved_tile(i, self.cells())
    }

    /// A move to `(x, y)` is legal when that cell is in the grid and next
    /// to the empty slot.
    pub open spec fn legal(self, x: int, y: int) -> bool {
        self.in_bounds(x, y) && adjacent(x, y, self.empty_x, self.empty_y)
    }

    /// The arrangement after the tile at `(x, y)` and the empty slot have
    /// changed places.
    pub open spec fn slide(self, x: int, y: int) -> Board {
        Board {
            tiles: self.tiles.update(self.empty_index(), self.tiles[self.index(x, y)]).update(
                self.index(x, y),
                None,
            ),
            empty_x: x,
            empty_y: y,
            ..self
        }
    }

    /// What a click on `(x, y)` makes of the arrangement: the move to that
    /// cell where it is legal, and nothing elsewhere.
    pub open spec fn click(self, x: int, y: int) -> Board {
        if self.legal(x, y) {
            self.slide(x, y)
        } else {
            self
        }
    }

    /// What `n` clicks on `(x, y)`, one after the other, make of the
    /// arrangement.
    pub open spec fn clicks(self, x: int, y: int, n: nat) -> Board
        decreases n,
    {
        if n == 0 {
            self
        } else {
            self.clicks(x, y, (n - 1) as nat).click(x, y)
        }
    }

    /// The cells next to the empty slot that lie in the grid, in the order
    /// up, down, left, right.
    pub open spec fn candidates(self) -> Seq<(int, int)> {
        let (ex, ey) = (self.empty_x, self.empty_y);
        let up = if ey > 0 {
            seq![(ex, ey - 1)]
        } else {
            Seq::empty()
        };
        let down = if ey < self.y_cells - 1 {
            seq![(ex, ey + 1)]
        } else {
            Seq::empty()
        };
        let left = if ex > 0 {
            seq![(ex - 1, ey)]
        } else {
            Seq::empty()
        };
        let right = if ex < self.x_cells - 1 {
            seq![(ex + 1, ey)]
        } else {
            Seq::empty()
        };
        up + down + left + right
    }

    /// `next` is what one legal move makes of this arrangement.
    pub open spec fn step(self, next: Board) -> bool {
        exists|x: int, y: int| self.legal(x, y) && next == #[trigger] self.slide(x, y)
    }

    /// `target` is what some `n` legal moves, one after the other, make of
    /// this arrangement.
    pub open spec fn reaches(self, target: Board, n: nat) -> bool
        decreases n,
    {
        if n == 0 {
            target == self
        } else {
            exists|mid: Board| self.reaches(mid, (n - 1) as nat) && #[trigger] mid.step(target)
        }
    }
}

/// A cell of the grid has an index below the number of cells.
pub proof fn lemma_index_in_range(x: int, y: int, x_cells: int, y_cells: int)
    requires
        0 <= x < x_cells,
        0 <= y < y_cells,
    ensures
        0 <= cell_index(x, y, x_cells) < x_cells * y_cells,
{
    assert(0 <= y * x_cells) by (nonlinear_arith)
        requires
            0 <= y,
            0 <= x_cells,
    ;
    assert((y + 1) * x_cells <= y_cells * x_cells) by (nonlinear_arith)
        requires
            y + 1 <= y_cells,
            0 <= x_cells,
    ;
    assert((y + 1) * x_cells == y * x_cells + x_cells) by (nonlinear_arith);
}

/// Cells with the same index are the same cell.
pub proof fn lemma_index_injective(ax: int, ay: int, bx: int, by: int, x_cells: int)
    requires
        0 <= ax < x_cells,
        0 <= bx < x_cells,
        cell_index(ax, ay, x_cells) == cell_index(bx, by, x_cells),
    ensures
        ax == bx,
        ay == by,
{
    if ay < by {
        assert((ay + 1) * x_cells <= by * x_cells) by (nonlinear_arith)
            requires
                ay + 1 <= by,
                0 <= x_cells,
        ;
        assert((ay + 1) * x_cells == ay * x_cells + x_cells) by (nonlinear_arith);
    } else if by < ay {
        assert((by + 1) * x_cells <= ay * x_cells) by (nonlinear_arith)
            requires
                by + 1 <= ay,
                0 <= x_cells,
        ;
        assert((by + 1) * x_cells == by * x_cells + x_cells) by (nonlinear_arith);
    }
}

/// In the solved arrangement no two cells hold the same thing.
pub proof fn lemma_solved_tiles_distinct(cells: int)
    requires
        0 <= cells <= u32::MAX,
    ensures
        solved_tiles(cells).no_duplicates(),
{
    let s = solved_tiles(cells);
    assert forall|i: int, j: int| 0 <= i < s.len() && 0 <= j < s.len() && i != j implies s[i]
        != s[j] by {
        assert(s[i] == solved_tile(i, cells));
        assert(s[j] == solved_tile(j, cells));
    }
}

/// What makes an arrangement, told cell by cell: `tiles` has `cells`
/// entries, no two of them alike, and each is the empty marker or a tile
/// below `cells - 1`.
pub proof fn lemma_arrangement_by_cells(tiles: Seq<Option<u32>>, cells: int)
    requires
        1 <= cells <= u32::MAX,
    ensures
        is_arrangement(tiles, cells) <==> {
            &&& tiles.len() == cells
            &&& tiles.no_duplicates()
            &&& forall|i: int|
                0 <= i < tiles.len() ==> (#[trigger] tiles[i] matches Some(t) ==> t < cells - 1)
        },
{
    broadcast use vstd::multiset::group_multiset_axioms;

    let solved = solved_tiles(cells);
    let m = tiles.to_multiset();
    let sm = solved.to_multiset();
    lemma_solved_tiles_distinct(cells);
    solved.lemma_multiset_has_no_duplicates();
    if is_arrangement(tiles, cells) {
        tiles.lemma_multiset_has_no_duplicates_conv();
        assert forall|i: int| 0 <= i < tiles.len() implies (#[trigger] tiles[i] matches Some(t)
            ==> t < cells - 1) by {
            let v = tiles[i];
            vstd::seq_lib::to_multiset_contains(tiles, v);
            vstd::seq_lib::to_multiset_contains(solved, v);
            assert(tiles.contains(v));
            let j = choose|j: int| 0 <= j < solved.len() && solved[j] == v;
            assert(solved[j] == solved_tile(j, cells));
        }
    }
    if tiles.len() == cells && tiles.no_duplicates() && (forall|i: int|
        0 <= i < tiles.len() ==> (#[trigger] tiles[i] matches Some(t) ==> t < cells - 1)) {
        tiles.lemma_multiset_has_no_duplicates();
        assert forall|v: Option<u32>| m.count(v) <= sm.count(v) by {
            vstd::seq_lib::to_multiset_contains(tiles, v);
            vstd::seq_lib::to_multiset_contains(solved, v);
            if m.count(v) > 0 {
                let i = choose|i: int| 0 <= i < tiles.len() && tiles[i] == v;
                let j = match v {
                    Some(t) => t as int,
                    None => cells - 1,
                };
                assert(solved[j] == v);
                assert(solved.contains(v));
            }
        }
        assert(m.subset_of(sm));
        vstd::seq_lib::to_multiset_len(tiles);
        vstd::seq_lib::to_multiset_len(solved);
        vstd::multiset::lemma_multiset_empty_len(sm.sub(m));
        assert(sm.sub(m).len() == 0);
        assert forall|v: Option<u32>| m.count(v) == sm.count(v) by {
            assert(sm.sub(m).count(v) == 0);
        }
        assert(m =~= sm);
    }
}

impl Board {
    /// A grid with a column and a row has a cell.
    pub proof fn lemma_cells_positive(self)
        requires
            1 <= self.x_cells,
            1 <= self.y_cells,
        ensures
            1 <= self.cells(),
    {
        assert(1 <= self.x_cells * self.y_cells) by (nonlinear_arith)
            requires
                1 <= self.x_cells,
                1 <= self.y_cells,
        ;
    }

    /// The solved arrangement is well formed and solved.
    pub proof fn lemma_solved_wf(x_cells: int, y_cells: int)
        requires
            1 <= x_cells,
            1 <= y_cells,
            x_cells * y_cells <= u32::MAX,
        ensures
            Board::solved(x_cells, y_cells).wf(),
            Board::solved(x_cells, y_cells).is_solved(),
    {
        let b = Board::solved(x_cells, y_cells);
        lemma_index_in_range(x_cells - 1, y_cells - 1, x_cells, y_cells);
        assert(b.empty_index() == x_cells * y_cells - 1) by (nonlinear_arith)
            requires
                b.empty_index() == (x_cells - 1) + (y_cells - 1) * x_cells,
        ;
    }

    /// A well-formed arrangement holds nothing twice.
    pub proof fn lemma_no_duplicates(self)
        requires
            self.wf(),
        ensures
            self.tiles.no_duplicates(),
    {
        self.lemma_cells_positive();
        lemma_arrangement_by_cells(self.tiles, self.cells());
    }

    /// Exactly one cell is empty: the one where the arrangement says the
    /// empty slot is.
    pub proof fn lemma_single_empty(self)
        requires
            self.wf(),
        ensures
            0 <= self.empty_index() < self.tiles.len(),
            forall|i: int|
                0 <= i < self.tiles.len() ==> (#[trigger] self.tiles[i] is None <==> i
                    == self.empty_index()),
    {
        lemma_index_in_range(self.empty_x, self.empty_y, self.x_cells, self.y_cells);
        self.lemma_no_duplicates();
    }

    /// Every tile is in exactly one cell: each of the tiles `0` to
    /// `cells - 2` is held by some cell and by no other, and no cell holds
    /// any other tile.
    pub proof fn lemma_every_tile_once(self)
        requires
            self.wf(),
        ensures
            forall|t: u32| t < self.cells() - 1 ==> #[trigger] self.tiles.contains(Some(t)),
            forall|i: int, j: int|
                0 <= i < self.tiles.len() && 0 <= j < self.tiles.len() && i != j
                    ==> self.tiles[i] != self.tiles[j],
            forall|i: int|
                0 <= i < self.tiles.len() ==> (#[trigger] self.tiles[i] matches Some(t) ==> t
                    < self.cells() - 1),
    {
        self.lemma_cells_positive();
        lemma_arrangement_by_cells(self.tiles, self.cells());
        let solved = solved_tiles(self.cells());
        assert forall|t: u32| t < self.cells() - 1 implies #[trigger] self.tiles.contains(
            Some(t),
        ) by {
            assert(solved[t as int] == Some(t));
            assert(solved.contains(Some(t)));
            vstd::seq_lib::to_multiset_contains(solved, Some(t));
            vstd::seq_lib::to_multiset_contains(self.tiles, Some(t));
        }
    }

    /// A legal move leaves the arrangement well formed.
    pub proof fn lemma_slide_wf(self, x: int, y: int)
        requires
            self.wf(),
            self.legal(x, y),
        ensures
            self.slide(x, y).wf(),
    {
        broadcast use vstd::multiset::group_multiset_axioms;

        let a = self.index(x, y);
        let e = self.empty_index();
        lemma_index_in_range(x, y, self.x_cells, self.y_cells);
        lemma_index_in_range(self.empty_x, self.empty_y, self.x_cells, self.y_cells);
        if a == e {
            lemma_index_injective(x, y, self.empty_x, self.empty_y, self.x_cells);
        }
        let v = self.tiles[a];
        let first = self.tiles.update(e, v);
        vstd::seq_lib::to_multiset_update(self.tiles, e, v);
        vstd::seq_lib::to_multiset_update(first, a, None);
        vstd::seq_lib::to_multiset_contains(self.tiles, v);
        vstd::seq_lib::to_multiset_contains(self.tiles, None);
        assert(self.tiles.contains(v));
        assert(self.tiles.contains(self.tiles[e]));
        assert(first.update(a, None).to_multiset() =~= self.tiles.to_multiset());
    }

    /// A click leaves a well-formed arrangement well formed.
    pub proof fn lemma_click_wf(self, x: int, y: int)
        requires
            self.wf(),
        ensures
            self.click(x, y).wf(),
    {
        if self.legal(x, y) {
            self.lemma_slide_wf(x, y);
        }
    }

    /// Clicking a cell that is not next to the empty slot changes nothing,
    /// however often it is done.
    pub proof fn lemma_idle_clicks(self, x: int, y: int, n: nat)
        requires
            !self.legal(x, y),
        ensures
            self.clicks(x, y, n) == self,
        decreases n,
    {
        if n > 0 {
            self.lemma_idle_clicks(x, y, (n - 1) as nat);
        }
    }

    /// An arrangement of the right length is solved exactly when it is
    /// the solved arrangement.
    pub proof fn lemma_is_solved_tiles(self)
        requires
            self.tiles.len() == self.cells(),
        ensures
            self.is_solved() <==> self.tiles == solved_tiles(self.cells()),
    {
        if self.is_solved() {
            assert(self.tiles =~= solved_tiles(self.cells()));
        }
    }

    /// In a solved arrangement the empty slot is the last cell: the
    /// rightmost of the bottom row.
    pub proof fn lemma_solved_empty_last(self)
        requires
            self.wf(),
            self.is_solved(),
        ensures
            self.empty_x == self.x_cells - 1,
            self.empty_y == self.y_cells - 1,
    {
        let e = self.empty_index();
        lemma_index_in_range(self.empty_x, self.empty_y, self.x_cells, self.y_cells);
        assert(self.tiles[e] == solved_tile(e, self.cells()));
        assert(cell_index(self.x_cells - 1, self.y_cells - 1, self.x_cells) == self.x_cells
            * self.y_cells - 1) by (nonlinear_arith);
        lemma_index_injective(
            self.empty_x,
            self.empty_y,
            self.x_cells - 1,
            self.y_cells - 1,
            self.x_cells,
        );
    }

    /// The candidates are the legal moves, all of them, and there is none
    /// only in the grid of a single cell.
    pub proof fn lemma_candidates_legal(self)
        requires
            self.wf(),
        ensures
            forall|x: int, y: int|
                self.legal(x, y) <==> #[trigger] self.candidates().contains((x, y)),
            self.candidates().len() == 0 <==> self.cells() == 1,
    {
        let (ex, ey) = (self.empty_x, self.empty_y);
        let c = self.candidates();
        assert forall|x: int, y: int| self.legal(x, y) implies c.contains((x, y)) by {
            if y == ey - 1 {
                assert(c[0] == (x, y));
            } else if y == ey + 1 {
                let i = if ey > 0 { 1int } else { 0int };
                assert(c[i] == (x, y));
            } else if x == ex - 1 {
                let above = if ey > 0 { 1int } else { 0int };
                let below = if ey < self.y_cells - 1 { 1int } else { 0int };
                let i = above + below;
                assert(c[i] == (x, y));
            } else {
                assert(c[c.len() - 1] == (x, y));
            }
        }
        assert forall|x: int, y: int| c.contains((x, y)) implies self.legal(x, y) by {
            let i = choose|i: int| 0 <= i < c.len() && c[i] == (x, y);
            assert(c[i] == (x, y));
        }
        if self.cells() == 1 {
            assert(self.x_cells == 1 && self.y_cells == 1) by (nonlinear_arith)
                requires
                    self.x_cells >= 1,
                    self.y_cells >= 1,
                    self.x_cells * self.y_cells == 1,
            ;
        } else {
            assert(self.x_cells > 1 || self.y_cells > 1) by (nonlinear_arith)
                requires
                    self.x_cells >= 1,
                    self.y_cells >= 1,
                    self.x_cells * self.y_cells != 1,
            ;
        }
    }

    /// A legal move can be taken back: the move to where the empty slot
    /// was is legal after it, and restores the arrangement.
    pub proof fn lemma_slide_back(self, x: int, y: int)
        requires
            self.wf(),
            self.legal(x, y),
        ensures
            self.slide(x, y).legal(self.empty_x, self.empty_y),
            self.slide(x, y).slide(self.empty_x, self.empty_y) == self,
    {
        let a = self.index(x, y);
        let e = self.empty_index();
        lemma_index_in_range(x, y, self.x_cells, self.y_cells);
        lemma_index_in_range(self.empty_x, self.empty_y, self.x_cells, self.y_cells);
        if a == e {
            lemma_index_injective(x, y, self.empty_x, self.empty_y, self.x_cells);
        }
        let back = self.slide(x, y).slide(self.empty_x, self.empty_y);
        assert(back.tiles =~= self.tiles);
    }

    /// A walk of `n` moves and one more move make a walk of `n + 1` moves.
    pub proof fn lemma_reaches_extend(self, mid: Board, target: Board, n: nat)
        requires
            self.reaches(mid, n),
            mid.step(target),
        ensures
            self.reaches(target, n + 1),
    {
        assert(self.reaches(mid, ((n + 1) - 1) as nat) && mid.step(target));
    }

    /// One move and a walk of `n` moves make a walk of `n + 1` moves.
    pub proof fn lemma_reaches_prepend(self, mid: Board, target: Board, n: nat)
        requires
            self.step(mid),
            mid.reaches(target, n),
        ensures
            self.reaches(target, n + 1),
        decreases n,
    {
        if n == 0 {
            assert(self.reaches(self, 0));
            self.lemma_reaches_extend(self, target, 0);
        } else {
            let last = choose|last: Board|
                mid.reaches(last, (n - 1) as nat) && #[trigger] last.step(target);
            self.lemma_reaches_prepend(mid, last, (n - 1) as nat);
            self.lemma_reaches_extend(last, target, n);
        }
    }

    /// Whatever a walk of legal moves reaches is well formed, on a grid of
    /// the same shape.
    pub proof fn lemma_reaches_wf(self, target: Board, n: nat)
        requires
            self.wf(),
            self.reaches(target, n),
        ensures
            target.wf(),
            target.x_cells == self.x_cells,
            target.y_cells == self.y_cells,
        decreases n,
    {
        if n > 0 {
            let mid = choose|mid: Board|
                self.reaches(mid, (n - 1) as nat) && #[trigger] mid.step(target);
            self.lemma_reaches_wf(mid, (n - 1) as nat);
            let (x, y) = choose|x: int, y: int|
                mid.legal(x, y) && target == #[trigger] mid.slide(x, y);
            mid.lemma_slide_wf(x, y);
        }
    }

    /// What `n` legal moves lead to leads back by `n` legal moves: the
    /// same moves taken back, last first.
    pub proof fn lemma_reaches_reversible(self, target: Board, n: nat)
        requires
            self.wf(),
            self.reaches(target, n),
        ensures
            target.reaches(self, n),
        decreases n,
    {
        if n > 0 {
            let mid = choose|mid: Board|
                self.reaches(mid, (n - 1) as nat) && #[trigger] mid.step(target);
            self.lemma_reaches_wf(mid, (n - 1) as nat);
            self.lemma_reaches_reversible(mid, (n - 1) as nat);
            let (x, y) = choose|x: int, y: int|
                mid.legal(x, y) && target == #[trigger] mid.slide(x, y);
            mid.lemma_slide_back(x, y);
            assert(target.step(mid)) by {
                assert(target.legal(mid.empty_x, mid.empty_y));
                assert(mid == target.slide(mid.empty_x, mid.empty_y));
            }
            target.lemma_reaches_prepend(mid, self, (n - 1) as nat);
        }
    }

    /// Whatever legal moves reach from a solved arrangement is well formed:
    /// it has one empty cell and holds every tile once.
    pub proof fn lemma_reachable_wf(x_cells: int, y_cells: int, target: Board, n: nat)
        requires
            1 <= x_cells,
            1 <= y_cells,
            x_cells * y_cells <= u32::MAX,
            Board::solved(x_cells, y_cells).reaches(target, n),
        ensures
            target.wf(),
            target.x_cells == x_cells,
            target.y_cells == y_cells,
    {
        Board::lemma_solved_wf(x_cells, y_cells);
        Board::solved(x_cells, y_cells).lemma_reaches_wf(target, n);
    }

    /// What a walk of `n` legal moves makes of the solved arrangement can be
    /// solved again by `n` legal moves.
    pub proof fn lemma_reachable_solvable(x_cells: int, y_cells: int, target: Board, n: nat)
        requires
            1 <= x_cells,
            1 <= y_cells,
            x_cells * y_cells <= u32::MAX,
            Board::solved(x_cells, y_cells).reaches(target, n),
        ensures
            target.reaches(Board::solved(x_cells, y_cells), n),
            Board::solved(x_cells, y_cells).is_solved(),
    {
        Board::lemma_solved_wf(x_cells, y_cells);
        Board::solved(x_cells, y_cells).lemma_reaches_reversible(target, n);
    }
}

} // verus!
