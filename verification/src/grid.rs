//! The puzzle grid: its cells, the click that moves a tile, the test for
//! the solved arrangement and the random walk that scrambles it.

use crate::board::{
    adjacent, cell_index, is_arrangement, lemma_arrangement_by_cells, lemma_index_in_range,
    lemma_index_injective, solved_tile, solved_tiles, Board,
};
use crate::random::choose_move;
use rand::rngs::ThreadRng;
use vstd::arithmetic::div_mod::lemma_fundamental_div_mod;
use vstd::prelude::*;

verus! {

/// What a click on the grid led to.
#[derive(Clone, Copy, Debug, PartialEq, Eq, Structural)]
pub enum GameEvent {
    /// The click made a move, and the move solved the puzzle.
    Completed,
    /// Anything else.
    NoEvent,
}

/// Why a grid could not be made.
#[derive(Clone, Copy, Debug, PartialEq, Eq, Structural)]
pub enum ConstructionError {
    /// The grid would have no column or no row.
    ZeroDimension,
    /// The grid would have more cells than a `u32` can count, or than a
    /// walk of ten steps for each cell can be counted for.
    TooLarge,
    /// The contents given are not an arrangement of the grid: they do not
    /// hold each tile once and one empty marker.
    NotAnArrangement,
}

/// One position of the grid and what it holds: the index of a tile, or
/// nothing where the empty slot is.
#[derive(Clone, Copy, Debug, PartialEq, Eq, Structural)]
pub struct Cell {
    pub x_pos: u32,
    pub y_pos: u32,
    pub content: Option<u32>,
}

impl Cell {
    /// The per-frame tick. It changes nothing.
    pub fn update(&mut self)
        ensures
            *final(self) == *old(self),
    {
    }

    /// Whether the cell holds what is expected of it.
    pub fn correct_spot(&self, expect_content: Option<u32>) -> (r: bool)
        ensures
            r == (self.content == expect_content),
    {
        self.content == expect_content
    }

    /// The cell's own reaction to a click. It changes nothing.
    pub fn click(&mut self)
        ensures
            *final(self) == *old(self),
    {
    }
}

/// The part of a picture that one tile shows: its upper left corner and
/// its size, in pixels.
#[derive(Clone, Copy, Debug, PartialEq, Eq, Structural)]
pub struct TileRegion {
    pub x: u32,
    pub y: u32,
    pub width: u32,
    pub height: u32,
}

/// The part of a picture of `width` by `height` pixels that the tile
/// `index` shows, for a grid that holds `board`. Every tile is
/// `width / x_cells` pixels wide and `height / y_cells` high, and the tile
/// `index` shows the part that lies over the cell of that index in the
/// solved grid. Where the picture's size is no multiple of the grid's, the
/// pixels left over at the right and at the bottom are in no tile.
pub open spec fn region_of(board: Board, index: int, width: int, height: int) -> TileRegion {
    let tile_width = width / board.x_cells;
    let tile_height = height / board.y_cells;
    TileRegion {
        x: ((index % board.x_cells) * tile_width) as u32,
        y: ((index / board.x_cells) * tile_height) as u32,
        width: tile_width as u32,
        height: tile_height as u32,
    }
}

/// The cell with row-major index `i` of a grid that holds `board`: it
/// stands in column `i % x_cells` of row `i / x_cells`.
pub open spec fn cell_at(board: Board, i: int) -> Cell {
    Cell {
        x_pos: (i % board.x_cells) as u32,
        y_pos: (i / board.x_cells) as u32,
        content: board.tiles[i],
    }
}

/// The puzzle: a grid of cells in row-major order, the position of the
/// empty slot, and the number of moves the player has made.
pub struct Grid {
    x_cells: u32,
    y_cells: u32,
    empty_x: u32,
    empty_y: u32,
    cells: Vec<Cell>,
    move_counter: u32,
}

impl View for Grid {
    type V = Board;

    /// The arrangement that the grid holds.
    closed spec fn view(&self) -> Board {
        Board {
            x_cells: self.x_cells as int,
            y_cells: self.y_cells as int,
            tiles: Seq::new(self.cells@.len(), |i: int| self.cells@[i].content),
            empty_x: self.empty_x as int,
            empty_y: self.empty_y as int,
        }
    }
}

impl Grid {
    /// The number of moves that the player has made.
    pub closed spec fn moves(&self) -> nat {
        self.move_counter as nat
    }

    /// The cells are as many as the grid has, and each records the
    /// position at which it stands.
    pub closed spec fn placed(&self) -> bool {
        &&& self.cells@.len() == self.x_cells * self.y_cells
        &&& forall|i: int|
            0 <= i < self.cells@.len() ==> {
                &&& (#[trigger] self.cells@[i]).x_pos == i % (self.x_cells as int)
                &&& self.cells@[i].y_pos == i / (self.x_cells as int)
            }
    }

    /// The grid's invariant: its arrangement is well formed and every
    /// cell records its own position.
    pub open spec fn wf(&self) -> bool {
        &&& self@.wf()
        &&& self.placed()
    }

    /// The number of columns.
    pub fn x_cells(&self) -> (n: u32)
        ensures
            n == self@.x_cells,
    {
        self.x_cells
    }

    /// The number of rows.
    pub fn y_cells(&self) -> (n: u32)
        ensures
            n == self@.y_cells,
    {
        self.y_cells
    }

    /// The number of moves that the player has made.
    pub fn move_counter(&self) -> (n: u32)
        ensures
            n == self.moves(),
    {
        self.move_counter
    }

    /// The position of the empty slot.
    pub fn empty_position(&self) -> (p: (u32, u32))
        ensures
            p.0 == self@.empty_x,
            p.1 == self@.empty_y,
    {
        (self.empty_x, self.empty_y)
    }

    /// The cells in row-major order, each with its position and what it
    /// holds: what a frame's drawing pass walks over.
    pub fn cells(&self) -> (cells: &Vec<Cell>)
        requires
            self.wf(),
        ensures
            cells@.len() == self@.cells(),
            forall|i: int| 0 <= i < cells@.len() ==> cells@[i] == cell_at(self@, i),
    {
        proof {
            assert forall|i: int| 0 <= i < self.cells@.len() implies self.cells@[i] == cell_at(
                self@,
                i,
            ) by {
                self.lemma_cell_position(i);
            }
        }
        &self.cells
    }

    /// The number of cells of a grid of the given shape, where the shape
    /// is one that a grid can have.
    fn cell_count(x_cells: u32, y_cells: u32) -> (r: Result<u32, ConstructionError>)
        ensures
            x_cells == 0 || y_cells == 0 ==> r == Err::<u32, _>(ConstructionError::ZeroDimension),
            x_cells > 0 && y_cells > 0 && x_cells * y_cells > u32::MAX ==> r == Err::<u32, _>(
                ConstructionError::TooLarge,
            ),
            x_cells > 0 && y_cells > 0 && x_cells * y_cells <= u32::MAX ==> {
                &&& x_cells * y_cells >= 1
                &&& r == Ok::<u32, ConstructionError>((x_cells * y_cells) as u32)
            },
    {
        if x_cells == 0 || y_cells == 0 {
            return Err(ConstructionError::ZeroDimension);
        }
        assert(1 <= x_cells * y_cells <= u32::MAX * u32::MAX) by (nonlinear_arith)
            requires
                1 <= x_cells <= u32::MAX,
                1 <= y_cells <= u32::MAX,
        ;
        let total: u64 = (x_cells as u64) * (y_cells as u64);
        if total > u32::MAX as u64 {
            return Err(ConstructionError::TooLarge);
        }
        Ok(total as u32)
    }

    /// The solved grid of the given shape, with no move made: every cell
    /// holds the tile of its own index, and the last cell is empty.
    pub fn solved(x_cells: u32, y_cells: u32) -> (r: Result<Grid, ConstructionError>)
        ensures
            x_cells == 0 || y_cells == 0 ==> r == Err::<Grid, _>(ConstructionError::ZeroDimension),
            x_cells > 0 && y_cells > 0 && x_cells * y_cells > u32::MAX ==> r == Err::<Grid, _>(
                ConstructionError::TooLarge,
            ),
            x_cells > 0 && y_cells > 0 && x_cells * y_cells <= u32::MAX ==> {
                &&& r matches Ok(grid)
                &&& grid.wf()
                &&& grid@ == Board::solved(x_cells as int, y_cells as int)
                &&& grid.moves() == 0
            },
    {
        let count: u32 = match Grid::cell_count(x_cells, y_cells) {
            Ok(count) => count,
            Err(e) => {
                return Err(e);
            },
        };
        let mut cells: Vec<Cell> = Vec::new();
        for i in 0..count
            invariant
                x_cells > 0,
                cells@.len() == i,
                forall|j: int|
                    0 <= j < i ==> {
                        &&& (#[trigger] cells@[j]).x_pos == j % (x_cells as int)
                        &&& cells@[j].y_pos == j / (x_cells as int)
                        &&& cells@[j].content == Some(j as u32)
                    },
        {
            cells.push(Cell { x_pos: i % x_cells, y_pos: i / x_cells, content: Some(i) });
        }
        let (empty_x, empty_y) = (x_cells - 1, y_cells - 1);
        proof {
            lemma_index_in_range(empty_x as int, empty_y as int, x_cells as int, y_cells as int);
            assert(cell_index(empty_x as int, empty_y as int, x_cells as int) == x_cells * y_cells
                - 1) by (nonlinear_arith)
                requires
                    empty_x == x_cells - 1,
                    empty_y == y_cells - 1,
            ;
        }
        let last = Grid::get_grid_index(empty_x, empty_y, x_cells);
        cells[last as usize].content = None;
        let grid = Grid { x_cells, y_cells, empty_x, empty_y, cells, move_counter: 0 };
        proof {
            assert(grid@.tiles =~= solved_tiles(x_cells * y_cells));
            Board::lemma_solved_wf(x_cells as int, y_cells as int);
        }
        Ok(grid)
    }

    /// The grid of the given shape whose cells hold `contents`, in
    /// row-major order, with no move made. The contents must be an
    /// arrangement of the grid: each tile once, and one empty marker.
    pub fn from_contents(x_cells: u32, y_cells: u32, contents: Vec<Option<u32>>) -> (r: Result<
        Grid,
        ConstructionError,
    >)
        ensures
            x_cells == 0 || y_cells == 0 ==> r == Err::<Grid, _>(ConstructionError::ZeroDimension),
            x_cells > 0 && y_cells > 0 && x_cells * y_cells > u32::MAX ==> r == Err::<Grid, _>(
                ConstructionError::TooLarge,
            ),
            x_cells > 0 && y_cells > 0 && x_cells * y_cells <= u32::MAX && !is_arrangement(
                contents@,
                x_cells * y_cells,
            ) ==> r == Err::<Grid, _>(ConstructionError::NotAnArrangement),
            x_cells > 0 && y_cells > 0 && x_cells * y_cells <= u32::MAX && is_arrangement(
                contents@,
                x_cells * y_cells,
            ) ==> {
                &&& r matches Ok(grid)
                &&& grid.wf()
                &&& grid@.x_cells == x_cells
                &&& grid@.y_cells == y_cells
                &&& grid@.tiles == contents@
                &&& grid.moves() == 0
            },
    {
        let count: u32 = match Grid::cell_count(x_cells, y_cells) {
            Ok(count) => count,
            Err(e) => {
                return Err(e);
            },
        };
        proof {
            lemma_arrangement_by_cells(contents@, count as int);
        }
        if contents.len() != count as usize {
            return Err(ConstructionError::NotAnArrangement);
        }
        let mut seen: Vec<bool> = Vec::new();
        for k in 0..count
            invariant
                seen@.len() == k,
                forall|j: int| 0 <= j < k ==> !seen@[j],
        {
            seen.push(false);
        }
        let mut cells: Vec<Cell> = Vec::new();
        let mut empty: (u32, u32) = (0, 0);
        for i in 0..count
            invariant
                x_cells > 0,
                y_cells > 0,
                count >= 1,
                count == x_cells * y_cells,
                contents@.len() == count,
                seen@.len() == count,
                cells@.len() == i,
                forall|k: int|
                    0 <= k < count ==> (seen@[k] <==> exists|j: int|
                        0 <= j < i && #[trigger] Grid::slot(contents@[j], count) == k),
                forall|j: int|
                    0 <= j < i ==> (#[trigger] contents@[j] matches Some(t) ==> t < count - 1),
                forall|j: int, k: int| 0 <= j < k < i ==> contents@[j] != contents@[k],
                forall|j: int|
                    0 <= j < i ==> {
                        &&& (#[trigger] cells@[j]).x_pos == j % (x_cells as int)
                        &&& cells@[j].y_pos == j / (x_cells as int)
                        &&& cells@[j].content == contents@[j]
                    },
                seen@[count - 1] ==> {
                    &&& empty.0 < x_cells
                    &&& empty.1 < y_cells
                    &&& 0 <= cell_index(empty.0 as int, empty.1 as int, x_cells as int) < i
                    &&& contents@[cell_index(
                        empty.0 as int,
                        empty.1 as int,
                        x_cells as int,
                    )] is None
                },
        {
            let content = contents[i as usize];
            let x = i % x_cells;
            let y = i / x_cells;
            proof {
                lemma_fundamental_div_mod(i as int, x_cells as int);
                if y >= y_cells {
                    assert(y * x_cells >= y_cells * x_cells) by (nonlinear_arith)
                        requires
                            y >= y_cells,
                            x_cells >= 0,
                    ;
                    assert(y_cells * x_cells == x_cells * y_cells) by (nonlinear_arith);
                }
            }
            let slot: u32 = match content {
                Some(t) => {
                    if t >= count - 1 {
                        proof {
                            lemma_arrangement_by_cells(contents@, count as int);
                        }
                        return Err(ConstructionError::NotAnArrangement);
                    }
                    t
                },
                None => {
                    empty = (x, y);
                    count - 1
                },
            };
            assert(slot == Grid::slot(content, count));
            if seen[slot as usize] {
                proof {
                    let j = choose|j: int|
                        0 <= j < i && #[trigger] Grid::slot(contents@[j], count) == slot;
                    assert(contents@[j] == contents@[i as int]);
                    lemma_arrangement_by_cells(contents@, count as int);
                }
                return Err(ConstructionError::NotAnArrangement);
            }
            seen[slot as usize] = true;
            cells.push(Cell { x_pos: x, y_pos: y, content });
            proof {
                assert(Grid::slot(contents@[i as int], count) == slot);
                assert forall|j: int, k: int| 0 <= j < k < i + 1 implies contents@[j]
                    != contents@[k] by {
                    if k == i && contents@[j] == contents@[k] {
                        assert(Grid::slot(contents@[j], count) == slot);
                    }
                }
            }
        }
        proof {
            lemma_arrangement_by_cells(contents@, count as int);
            assert(contents@.no_duplicates());
            assert(is_arrangement(contents@, count as int));
            vstd::seq_lib::to_multiset_contains(contents@, None);
            vstd::seq_lib::to_multiset_contains(solved_tiles(count as int), None);
            assert(solved_tiles(count as int)[count - 1] is None);
            assert(solved_tiles(count as int).contains(None));
            let j = choose|j: int| 0 <= j < contents@.len() && contents@[j] == None::<u32>;
            assert(Grid::slot(contents@[j], count) == count - 1);
        }
        let (empty_x, empty_y) = empty;
        let grid = Grid { x_cells, y_cells, empty_x, empty_y, cells, move_counter: 0 };
        proof {
            assert(grid@.tiles =~= contents@);
        }
        Ok(grid)
    }

    /// The place that a cell's content takes among the `count` things an
    /// arrangement holds: a tile's own index, and the last place for the
    /// empty marker.
    spec fn slot(content: Option<u32>, count: u32) -> int {
        match content {
            Some(t) => t as int,
            None => count - 1,
        }
    }

    /// A new puzzle of the given shape: the solved grid, scrambled by a
    /// walk of ten steps for each cell, with no move counted.
    pub fn new(x_cells: u32, y_cells: u32) -> (r: Result<Grid, ConstructionError>)
        ensures
            x_cells == 0 || y_cells == 0 ==> r == Err::<Grid, _>(ConstructionError::ZeroDimension),
            x_cells > 0 && y_cells > 0 && x_cells * y_cells * 10 > u32::MAX ==> r == Err::<Grid, _>(
                ConstructionError::TooLarge,
            ),
            x_cells > 0 && y_cells > 0 && x_cells * y_cells * 10 <= u32::MAX ==> {
                &&& r matches Ok(grid)
                &&& grid.wf()
                &&& grid@.x_cells == x_cells
                &&& grid@.y_cells == y_cells
                &&& grid.moves() == 0
                &&& x_cells * y_cells > 1 ==> Board::solved(x_cells as int, y_cells as int).reaches(
                    grid@,
                    (x_cells * y_cells * 10) as nat,
                )
                &&& x_cells * y_cells == 1 ==> grid@ == Board::solved(1, 1)
            },
    {
        let count: u32 = match Grid::cell_count(x_cells, y_cells) {
            Ok(count) => count,
            Err(e) => {
                return Err(e);
            },
        };
        if count > u32::MAX / 10 {
            return Err(ConstructionError::TooLarge);
        }
        let depth: u32 = count * 10;
        match Grid::solved(x_cells, y_cells) {
            Ok(mut grid) => {
                grid.randomize(depth);
                proof {
                    if x_cells * y_cells == 1 {
                        assert(x_cells == 1 && y_cells == 1) by (nonlinear_arith)
                            requires
                                x_cells >= 1,
                                y_cells >= 1,
                                x_cells * y_cells == 1,
                        ;
                    }
                }
                Ok(grid)
            },
            Err(e) => Err(e),
        }
    }

    /// Row-major index of the cell `(x, y)` in a grid `w` cells wide.
    pub fn get_grid_index(x: u32, y: u32, w: u32) -> (index: u32)
        requires
            cell_index(x as int, y as int, w as int) <= u32::MAX,
        ensures
            index == cell_index(x as int, y as int, w as int),
    {
        assert(0 <= y * w) by (nonlinear_arith)
            requires
                0 <= y,
                0 <= w,
        ;
        x + y * w
    }

    /// Whether the cells `a` and `b` lie in one row or one column, one
    /// step apart.
    pub fn is_adjacent(a: (u32, u32), b: (u32, u32)) -> (r: bool)
        ensures
            r == adjacent(a.0 as int, a.1 as int, b.0 as int, b.1 as int),
    {
        let (ax, ay) = a;
        let (bx, by) = b;
        (Grid::one_apart(ax, bx) && ay == by) || (Grid::one_apart(ay, by) && ax == bx)
    }

    fn one_apart(p: u32, q: u32) -> (r: bool)
        ensures
            r == (p - q == 1 || q - p == 1),
    {
        if p > q {
            p - q == 1
        } else {
            q - p == 1
        }
    }

    /// Exchanges what the cells `a` and `b` hold. The cells stay where they
    /// are, and nothing else changes.
    fn swap_cells(&mut self, a: (u32, u32), b: (u32, u32))
        requires
            old(self).placed(),
            old(self)@.cells() <= u32::MAX,
            old(self)@.in_bounds(a.0 as int, a.1 as int),
            old(self)@.in_bounds(b.0 as int, b.1 as int),
        ensures
            final(self).placed(),
            final(self)@.tiles == old(self)@.tiles.update(
                old(self)@.index(b.0 as int, b.1 as int),
                old(self)@.tiles[old(self)@.index(a.0 as int, a.1 as int)],
            ).update(
                old(self)@.index(a.0 as int, a.1 as int),
                old(self)@.tiles[old(self)@.index(b.0 as int, b.1 as int)],
            ),
            final(self)@.x_cells == old(self)@.x_cells,
            final(self)@.y_cells == old(self)@.y_cells,
            final(self)@.empty_x == old(self)@.empty_x,
            final(self)@.empty_y == old(self)@.empty_y,
            final(self).moves() == old(self).moves(),
    {
        let (ax, ay) = a;
        let (bx, by) = b;
        proof {
            lemma_index_in_range(ax as int, ay as int, self.x_cells as int, self.y_cells as int);
            lemma_index_in_range(bx as int, by as int, self.x_cells as int, self.y_cells as int);
        }
        let a_index = Grid::get_grid_index(ax, ay, self.x_cells);
        let b_index = Grid::get_grid_index(bx, by, self.x_cells);
        let a_cell_content = self.cells[a_index as usize].content;
        let b_cell_content = self.cells[b_index as usize].content;
        self.cells[b_index as usize].content = a_cell_content;
        self.cells[a_index as usize].content = b_cell_content;
    }

    /// Whether a click on `(x_cell, y_cell)` would move a tile: whether
    /// that cell is in the grid and next to the empty slot.
    pub fn can_move(&self, x_cell: u32, y_cell: u32) -> (legal: bool)
        ensures
            legal == self@.legal(x_cell as int, y_cell as int),
    {
        x_cell < self.x_cells && y_cell < self.y_cells && Grid::is_adjacent(
            (x_cell, y_cell),
            (self.empty_x, self.empty_y),
        )
    }

    /// A click on the cell `(x_cell, y_cell)`. Where that cell is in the
    /// grid and next to the empty slot, its tile moves into the slot and
    /// the move is counted; any other click changes nothing. The event is
    /// `Completed` exactly when the click made a move and the grid is
    /// solved after it.
    pub fn click(&mut self, x_cell: u32, y_cell: u32) -> (event: GameEvent)
        requires
            old(self).wf(),
            old(self)@.legal(x_cell as int, y_cell as int) ==> old(self).moves() < u32::MAX,
        ensures
            final(self).wf(),
            final(self)@ == old(self)@.click(x_cell as int, y_cell as int),
            old(self)@.legal(x_cell as int, y_cell as int) ==> {
                &&& final(self).moves() == old(self).moves() + 1
                &&& event == GameEvent::Completed <==> final(self)@.is_solved()
                &&& event == GameEvent::NoEvent <==> !final(self)@.is_solved()
            },
            !old(self)@.legal(x_cell as int, y_cell as int) ==> {
                &&& *final(self) == *old(self)
                &&& event == GameEvent::NoEvent
            },
    {
        let (move_to_x, move_to_y) = (self.empty_x, self.empty_y);
        if self.can_move(x_cell, y_cell) {
            self.swap_cells((x_cell, y_cell), (move_to_x, move_to_y));
            self.empty_x = x_cell;
            self.empty_y = y_cell;
            self.move_counter += 1;
            proof {
                old(self)@.lemma_slide_wf(x_cell as int, y_cell as int);
                if self@.is_solved() {
                    self@.lemma_solved_empty_last();
                }
            }
            if self.empty_x == self.x_cells - 1 && self.empty_y == self.y_cells - 1
                && self.is_solved() {
                return GameEvent::Completed;
            }
        }
        GameEvent::NoEvent
    }

    /// Whether every cell holds the tile of its own index and the last
    /// cell is empty.
    pub fn is_solved(&self) -> (r: bool)
        requires
            self.wf(),
        ensures
            r == self@.is_solved(),
    {
        let mut i: usize = 0;
        while i < self.cells.len()
            invariant
                self.wf(),
                0 <= i <= self.cells@.len(),
                forall|j: int| 0 <= j < i ==> self@.tiles[j] == solved_tile(j, self@.cells()),
            decreases self.cells@.len() - i,
        {
            let cell = &self.cells[i];
            let (cx, cy) = (cell.x_pos, cell.y_pos);
            proof {
                self.lemma_cell_position(i as int);
            }
            let expect = if cx == self.x_cells - 1 && cy == self.y_cells - 1 {
                None
            } else {
                Some(Grid::get_grid_index(cx, cy, self.x_cells))
            };
            if !cell.correct_spot(expect) {
                return false;
            }
            i += 1;
        }
        true
    }

    /// The cell at index `i` records a position in the grid with that
    /// index, and it is the last cell exactly when it stands in the last
    /// column of the last row.
    proof fn lemma_cell_position(&self, i: int)
        requires
            self.wf(),
            0 <= i < self.cells@.len(),
        ensures
            self.cells@[i] == cell_at(self@, i),
            self.cells@[i].x_pos < self.x_cells,
            self.cells@[i].y_pos < self.y_cells,
            cell_index(
                self.cells@[i].x_pos as int,
                self.cells@[i].y_pos as int,
                self.x_cells as int,
            ) == i,
            i == self@.cells() - 1 <==> (self.cells@[i].x_pos == self.x_cells - 1
                && self.cells@[i].y_pos == self.y_cells - 1),
    {
        let x = self.cells@[i].x_pos as int;
        let y = self.cells@[i].y_pos as int;
        let w = self.x_cells as int;
        let h = self.y_cells as int;
        lemma_fundamental_div_mod(i, w);
        assert(x + y * w == i);
        if y >= h {
            assert(y * w >= h * w) by (nonlinear_arith)
                requires
                    y >= h,
                    w >= 0,
            ;
        }
        assert(cell_index(w - 1, h - 1, w) == w * h - 1) by (nonlinear_arith);
        if i == w * h - 1 {
            lemma_index_injective(x, y, w - 1, h - 1, w);
        }
    }

    /// The per-frame tick: it ticks every cell, and changes neither the
    /// arrangement nor the count of moves.
    pub fn update(&mut self)
        ensures
            final(self)@ == old(self)@,
            final(self).moves() == old(self).moves(),
            final(self).placed() == old(self).placed(),
    {
        let mut i: usize = 0;
        while i < self.cells.len()
            invariant
                self.cells@ == old(self).cells@,
                self.x_cells == old(self).x_cells,
                self.y_cells == old(self).y_cells,
                self.empty_x == old(self).empty_x,
                self.empty_y == old(self).empty_y,
                self.move_counter == old(self).move_counter,
            decreases self.cells@.len() - i,
        {
            self.cells[i].update();
            i += 1;
        }
    }

    /// The pointer moved over the grid. It changes nothing.
    pub fn mouse_move(&mut self, raw_x: u32, raw_y: u32, w: u32, h: u32)
        ensures
            *final(self) == *old(self),
    {
    }

    /// The moves that are legal now: the cells next to the empty slot that
    /// lie in the grid, in the order up, down, left, right.
    pub fn possible_moves(&self) -> (moves: Vec<(u32, u32)>)
        requires
            self.wf(),
        ensures
            moves@.len() == self@.candidates().len(),
            forall|i: int|
                0 <= i < moves@.len() ==> (moves@[i].0 as int, moves@[i].1 as int)
                    == self@.candidates()[i],
    {
        let mut possible_moves: Vec<(u32, u32)> = Vec::new();
        let (ex, ey) = (self.empty_x, self.empty_y);
        if ey > 0 {
            possible_moves.push((ex, ey - 1));
        }
        if ey < self.y_cells - 1 {
            possible_moves.push((ex, ey + 1));
        }
        if ex > 0 {
            possible_moves.push((ex - 1, ey));
        }
        if ex < self.x_cells - 1 {
            possible_moves.push((ex + 1, ey));
        }
        possible_moves
    }

    /// Moves the empty slot to the chosen cell, if one was chosen, as a
    /// click would, but without counting a move: one step of the walk that
    /// scrambles the grid.
    pub fn apply_choice(&mut self, choice: Option<(u32, u32)>)
        requires
            old(self).wf(),
            choice matches Some(mv) ==> old(self)@.legal(mv.0 as int, mv.1 as int),
        ensures
            final(self).wf(),
            final(self).moves() == old(self).moves(),
            choice matches Some(mv) ==> final(self)@ == old(self)@.slide(mv.0 as int, mv.1 as int),
            choice is None ==> *final(self) == *old(self),
    {
        if let Some(mv) = choice {
            let (ex, ey) = (self.empty_x, self.empty_y);
            self.swap_cells(mv, (ex, ey));
            let (mx, my) = mv;
            self.empty_x = mx;
            self.empty_y = my;
            proof {
                old(self)@.lemma_slide_wf(mx as int, my as int);
            }
        }
    }

    /// One step of the walk that scrambles the grid: a legal move, picked
    /// by the generator among those that there are, and not counted. In the
    /// grid of a single cell there is no move, and nothing changes.
    pub fn random_step(&mut self, rng: &mut ThreadRng)
        requires
            old(self).wf(),
        ensures
            final(self).wf(),
            final(self).moves() == old(self).moves(),
            final(self)@.x_cells == old(self)@.x_cells,
            final(self)@.y_cells == old(self)@.y_cells,
            old(self)@.cells() > 1 ==> old(self)@.step(final(self)@),
            old(self)@.cells() == 1 ==> *final(self) == *old(self),
    {
        let possible_moves = self.possible_moves();
        let rand_move = choose_move(rng, &possible_moves);
        proof {
            self@.lemma_candidates_legal();
            if let Some(mv) = rand_move {
                let i = choose|i: int| 0 <= i < possible_moves@.len() && possible_moves@[i] == mv;
                assert(self@.candidates()[i] == (mv.0 as int, mv.1 as int));
            }
        }
        self.apply_choice(rand_move);
    }

    /// Scrambles the grid by a walk of `depth` random steps. What comes
    /// out can be reached by `depth` legal moves from what went in, and the
    /// count of moves is as it was.
    pub fn randomize(&mut self, depth: u32)
        requires
            old(self).wf(),
        ensures
            final(self).wf(),
            final(self).moves() == old(self).moves(),
            final(self)@.x_cells == old(self)@.x_cells,
            final(self)@.y_cells == old(self)@.y_cells,
            old(self)@.cells() > 1 ==> old(self)@.reaches(final(self)@, depth as nat),
            old(self)@.cells() == 1 ==> *final(self) == *old(self),
    {
        let mut rng = rand::thread_rng();
        for i in 0..depth
            invariant
                self.wf(),
                self.moves() == old(self).moves(),
                self@.x_cells == old(self)@.x_cells,
                self@.y_cells == old(self)@.y_cells,
                old(self)@.cells() > 1 ==> old(self)@.reaches(self@, i as nat),
                old(self)@.cells() == 1 ==> *self == *old(self),
        {
            let ghost before = self@;
            self.random_step(&mut rng);
            proof {
                if old(self)@.cells() > 1 {
                    old(self)@.lemma_reaches_extend(before, self@, i as nat);
                }
            }
        }
    }

    /// The part of a picture of `width` by `height` pixels that the tile
    /// `index` shows.
    pub fn tile_region(&self, index: u32, width: u32, height: u32) -> (region: TileRegion)
        requires
            self.wf(),
            index < self@.cells(),
        ensures
            region == region_of(self@, index as int, width as int, height as int),
            region.x + region.width <= width,
            region.y + region.height <= height,
    {
        let x = index % self.x_cells;
        let y = index / self.x_cells;
        let tile_width = width / self.x_cells;
        let tile_height = height / self.y_cells;
        proof {
            let (w, h) = (self.x_cells as int, self.y_cells as int);
            lemma_fundamental_div_mod(index as int, w);
            lemma_fundamental_div_mod(width as int, w);
            lemma_fundamental_div_mod(height as int, h);
            if y >= h {
                assert(w * y >= w * h) by (nonlinear_arith)
                    requires
                        y >= h,
                        w >= 0,
                ;
            }
            assert((x + 1) * tile_width <= w * tile_width) by (nonlinear_arith)
                requires
                    x + 1 <= w,
                    tile_width >= 0,
            ;
            assert((x + 1) * tile_width == x * tile_width + tile_width) by (nonlinear_arith);
            assert((y + 1) * tile_height <= h * tile_height) by (nonlinear_arith)
                requires
                    y + 1 <= h,
                    tile_height >= 0,
            ;
            assert((y + 1) * tile_height == y * tile_height + tile_height) by (nonlinear_arith);
        }
        TileRegion { x: x * tile_width, y: y * tile_height, width: tile_width, height: tile_height }
    }

    /// The parts of a picture of `width` by `height` pixels that the tiles
    /// show, one for each cell, in the order of the tiles' indices. The
    /// last has no tile of its own: it is where the solved grid is empty.
    pub fn tile_regions(&self, width: u32, height: u32) -> (regions: Vec<TileRegion>)
        requires
            self.wf(),
        ensures
            regions@.len() == self@.cells(),
            forall|i: int|
                0 <= i < regions@.len() ==> {
                    &&& regions@[i] == region_of(self@, i, width as int, height as int)
                    &&& regions@[i].x + regions@[i].width <= width
                    &&& regions@[i].y + regions@[i].height <= height
                },
    {
        let count = self.cells.len();
        let mut regions: Vec<TileRegion> = Vec::new();
        let mut i: usize = 0;
        while i < count
            invariant
                self.wf(),
                count == self@.cells(),
                0 <= i <= count,
                regions@.len() == i,
                forall|j: int|
                    0 <= j < i ==> {
                        &&& regions@[j] == region_of(self@, j, width as int, height as int)
                        &&& regions@[j].x + regions@[j].width <= width
                        &&& regions@[j].y + regions@[j].height <= height
                    },
            decreases count - i,
        {
            regions.push(self.tile_region(i as u32, width, height));
            i += 1;
        }
        regions
    }
}

} // verus!
