use slide_puzzle::grid::Grid;
use slide_puzzle::session::{best_score, game_click};

fn solved(x_cells: u32, y_cells: u32) -> Grid {
    match Grid::solved(x_cells, y_cells) {
        Ok(grid) => grid,
        Err(e) => panic!("no grid: {:?}", e),
    }
}

#[test]
fn first_win_sets_the_high_score() {
    assert_eq!(best_score(0, 42), 42);
    assert_eq!(best_score(0, 1), 1);
}

#[test]
fn high_score_is_the_fewest_moves() {
    assert_eq!(best_score(30, 42), 30);
    assert_eq!(best_score(50, 42), 42);
    assert_eq!(best_score(42, 42), 42);
    assert_eq!(best_score(1, u32::MAX), 1);
    assert_eq!(best_score(u32::MAX, 3), 3);
}

#[test]
fn game_goes_on_until_the_puzzle_is_solved() {
    let mut grid = solved(3, 3);
    assert_eq!(game_click(&mut grid, 9, 0, 0), None);
    assert_eq!(grid.move_counter(), 0);
    assert_eq!(game_click(&mut grid, 9, 2, 1), None);
    assert_eq!(game_click(&mut grid, 9, 1, 1), None);
    assert_eq!(game_click(&mut grid, 9, 2, 1), None);
    assert_eq!(grid.move_counter(), 3);
    assert_eq!(game_click(&mut grid, 9, 2, 2), Some(4));
    assert!(grid.is_solved());
    assert_eq!(grid.move_counter(), 4);
}

#[test]
fn win_in_more_moves_keeps_the_high_score() {
    let mut grid = solved(2, 2);
    assert_eq!(game_click(&mut grid, 1, 1, 0), None);
    assert_eq!(game_click(&mut grid, 1, 1, 1), Some(1));
    let mut grid = solved(2, 2);
    assert_eq!(game_click(&mut grid, 0, 0, 1), None);
    assert_eq!(game_click(&mut grid, 0, 1, 1), Some(2));
}

#[test]
fn click_outside_the_grid_does_not_end_the_game() {
    let mut grid = solved(2, 2);
    assert_eq!(game_click(&mut grid, 5, 2, 1), None);
    assert_eq!(game_click(&mut grid, 5, 7, 7), None);
    assert_eq!(grid.move_counter(), 0);
    assert!(grid.is_solved());
}
