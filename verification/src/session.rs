//! What a play session decides: what a click on the running game leads
//! to, and what becomes of the high score when a game is won.

use crate::grid::{GameEvent, Grid};
use vstd::prelude::*;

verus! {

/// The high score once a game has been won in `moves` moves: the smaller
/// of the two, where a high score of `0` stands for none yet.
pub open spec fn best_of(high_score: u32, moves: u32) -> u32 {
    if high_score == 0 || moves < high_score {
        moves
    } else {
        high_score
    }
}

/// The high score once a game has been won in `moves` moves.
pub fn best_score(high_score: u32, moves: u32) -> (best: u32)
    ensures
        best == best_of(high_score, moves),
{
    if moves < high_score || high_score == 0 {
        moves
    } else {
        high_score
    }
}

/// A click on the cell `(cell_x, cell_y)` of the running game, with the
/// high score as it stands. The grid takes the click. Where the click
/// solves the puzzle the game is over, and the result is the high score
/// to go back to the title page with; after any other click the game goes
/// on, and the result is nothing.
pub fn game_click(grid: &mut Grid, high_score: u32, cell_x: u32, cell_y: u32) -> (finished: Option<
    u32,
>)
    requires
        old(grid).wf(),
        old(grid)@.legal(cell_x as int, cell_y as int) ==> old(grid).moves() < u32::MAX,
    ensures
        final(grid).wf(),
        final(grid)@ == old(grid)@.click(cell_x as int, cell_y as int),
        old(grid)@.legal(cell_x as int, cell_y as int) ==> {
            &&& final(grid).moves() == old(grid).moves() + 1
            &&& finished == if final(grid)@.is_solved() {
                Some(best_of(high_score, final(grid).moves() as u32))
            } else {
                None
            }
        },
        !old(grid)@.legal(cell_x as int, cell_y as int) ==> {
            &&& *final(grid) == *old(grid)
            &&& finished is None
        },
{
    match grid.click(cell_x, cell_y) {
        GameEvent::Completed => Some(best_score(high_score, grid.move_counter())),
        GameEvent::NoEvent => None,
    }
}

} // verus!
