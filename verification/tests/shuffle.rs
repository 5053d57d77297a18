use slide_puzzle::grid::{GameEvent, Grid};

fn contents(grid: &Grid) -> Vec<Option<u32>> {
    grid.cells().iter().map(|c| c.content).collect()
}

fn solved(x_cells: u32, y_cells: u32) -> Grid {
    match Grid::solved(x_cells, y_cells) {
        Ok(grid) => grid,
        Err(e) => panic!("no grid: {:?}", e),
    }
}

fn assert_arrangement(grid: &Grid) {
    let tiles = contents(grid);
    let count = (grid.x_cells() * grid.y_cells()) as usize;
    assert_eq!(tiles.len(), count);
    assert_eq!(tiles.iter().filter(|t| t.is_none()).count(), 1);
    for index in 0..(count as u32 - 1) {
        assert_eq!(tiles.iter().filter(|t| **t == Some(index)).count(), 1);
    }
    let (ex, ey) = grid.empty_position();
    assert_eq!(tiles[(ex + ey * grid.x_cells()) as usize], None);
}

fn one_apart(a: (u32, u32), b: (u32, u32)) -> bool {
    let dx = if a.0 > b.0 { a.0 - b.0 } else { b.0 - a.0 };
    let dy = if a.1 > b.1 { a.1 - b.1 } else { b.1 - a.1 };
    dx + dy == 1
}

#[test]
fn possible_moves_at_a_corner() {
    let grid = solved(3, 3);
    assert_eq!(grid.possible_moves(), vec![(2, 1), (1, 2)]);
}

#[test]
fn possible_moves_on_an_edge() {
    let mut grid = solved(3, 3);
    grid.click(2, 1);
    assert_eq!(grid.possible_moves(), vec![(2, 0), (2, 2), (1, 1)]);
}

#[test]
fn possible_moves_in_the_interior() {
    let mut grid = solved(3, 3);
    grid.click(1, 2);
    grid.click(1, 1);
    assert_eq!(grid.possible_moves(), vec![(1, 0), (1, 2), (0, 1), (2, 1)]);
}

#[test]
fn possible_moves_in_a_single_row() {
    let mut grid = solved(3, 1);
    assert_eq!(grid.possible_moves(), vec![(1, 0)]);
    grid.click(1, 0);
    assert_eq!(grid.possible_moves(), vec![(0, 0), (2, 0)]);
}

#[test]
fn apply_choice_moves_without_counting() {
    let mut grid = solved(3, 3);
    grid.apply_choice(Some((2, 1)));
    assert_eq!(
        contents(&grid),
        vec![Some(0), Some(1), Some(2), Some(3), Some(4), None, Some(6), Some(7), Some(5)]
    );
    assert_eq!(grid.empty_position(), (2, 1));
    assert_eq!(grid.move_counter(), 0);
}

#[test]
fn apply_choice_of_nothing_changes_nothing() {
    let mut grid = solved(3, 3);
    grid.apply_choice(None);
    assert!(grid.is_solved());
    assert_eq!(grid.empty_position(), (2, 2));
    assert_eq!(grid.move_counter(), 0);
}

#[test]
fn chosen_walk_is_undone_by_the_inverse_walk() {
    let mut grid = solved(3, 3);
    let walk = [(2, 1), (1, 1), (1, 0), (0, 0), (0, 1)];
    let mut visited = vec![grid.empty_position()];
    for step in walk {
        grid.apply_choice(Some(step));
        visited.push(step);
        assert_arrangement(&grid);
    }
    assert!(!grid.is_solved());
    visited.pop();
    while let Some(back) = visited.pop() {
        grid.apply_choice(Some(back));
    }
    assert!(grid.is_solved());
    assert_eq!(grid.move_counter(), 0);
}

#[test]
fn random_step_makes_one_legal_move() {
    let mut rng = rand::thread_rng();
    for _ in 0..50 {
        let mut grid = solved(3, 3);
        grid.click(1, 2);
        grid.click(1, 1);
        let before = contents(&grid);
        let was = grid.empty_position();
        let moves = grid.possible_moves();
        grid.random_step(&mut rng);
        let now = grid.empty_position();
        assert!(moves.contains(&now));
        assert!(one_apart(was, now));
        let after = contents(&grid);
        let was_index = (was.0 + was.1 * 3) as usize;
        let now_index = (now.0 + now.1 * 3) as usize;
        assert_eq!(after[now_index], None);
        assert_eq!(after[was_index], before[now_index]);
        for i in 0..9 {
            if i != was_index && i != now_index {
                assert_eq!(after[i], before[i]);
            }
        }
        assert_eq!(grid.move_counter(), 2);
    }
}

#[test]
fn random_step_reaches_every_neighbour_in_time() {
    let mut rng = rand::thread_rng();
    let mut seen = Vec::new();
    for _ in 0..400 {
        let mut grid = solved(3, 3);
        grid.random_step(&mut rng);
        let now = grid.empty_position();
        if !seen.contains(&now) {
            seen.push(now);
        }
    }
    seen.sort();
    assert_eq!(seen, vec![(1, 2), (2, 1)]);
}

#[test]
fn randomize_keeps_one_empty_cell_and_every_tile() {
    for (x_cells, y_cells) in [(2, 2), (3, 3), (4, 3), (1, 5), (5, 1), (5, 5)] {
        let mut grid = solved(x_cells, y_cells);
        grid.randomize(10 * x_cells * y_cells);
        assert_arrangement(&grid);
        assert_eq!(grid.x_cells(), x_cells);
        assert_eq!(grid.y_cells(), y_cells);
    }
}

#[test]
fn randomize_does_not_touch_the_move_counter() {
    let mut grid = solved(3, 3);
    grid.click(1, 2);
    grid.click(0, 2);
    grid.randomize(100);
    assert_eq!(grid.move_counter(), 2);
    let mut rng = rand::thread_rng();
    grid.random_step(&mut rng);
    assert_eq!(grid.move_counter(), 2);
}

#[test]
fn randomize_of_odd_depth_leaves_the_empty_slot_on_the_other_colour() {
    for depth in [1u32, 3, 7, 21] {
        let mut grid = solved(4, 4);
        grid.randomize(depth);
        let (ex, ey) = grid.empty_position();
        assert_eq!((ex + ey) % 2, 1);
        assert!(!grid.is_solved());
    }
    for depth in [0u32, 2, 8, 20] {
        let mut grid = solved(4, 4);
        grid.randomize(depth);
        let (ex, ey) = grid.empty_position();
        assert_eq!((ex + ey) % 2, 0);
    }
}

#[test]
fn randomize_on_two_by_two_stays_on_the_cycle_of_twelve() {
    let cycle: Vec<Vec<Option<u32>>> = vec![
        vec![Some(0), Some(1), Some(2), None],
        vec![Some(0), None, Some(2), Some(1)],
        vec![None, Some(0), Some(2), Some(1)],
        vec![Some(2), Some(0), None, Some(1)],
        vec![Some(2), Some(0), Some(1), None],
        vec![Some(2), None, Some(1), Some(0)],
        vec![None, Some(2), Some(1), Some(0)],
        vec![Some(1), Some(2), None, Some(0)],
        vec![Some(1), Some(2), Some(0), None],
        vec![Some(1), None, Some(0), Some(2)],
        vec![None, Some(1), Some(0), Some(2)],
        vec![Some(0), Some(1), None, Some(2)],
    ];
    for depth in 0..40 {
        let mut grid = solved(2, 2);
        grid.randomize(depth);
        let tiles = contents(&grid);
        let at = cycle.iter().position(|c| *c == tiles);
        match at {
            Some(place) => assert_eq!(place % 2, (depth % 2) as usize),
            None => panic!("unreachable arrangement {:?}", tiles),
        }
    }
}

#[test]
fn new_grid_is_scrambled_arrangement_with_no_move_counted() {
    let grid = match Grid::new(4, 3) {
        Ok(grid) => grid,
        Err(e) => panic!("no grid: {:?}", e),
    };
    assert_eq!(grid.x_cells(), 4);
    assert_eq!(grid.y_cells(), 3);
    assert_eq!(grid.move_counter(), 0);
    assert_arrangement(&grid);
    let (ex, ey) = grid.empty_position();
    assert_eq!((ex + ey) % 2, (3 + 2) % 2);
}

#[test]
fn new_single_cell_grid_is_solved() {
    let mut grid = match Grid::new(1, 1) {
        Ok(grid) => grid,
        Err(e) => panic!("no grid: {:?}", e),
    };
    assert!(grid.is_solved());
    assert_eq!(grid.click(0, 0), GameEvent::NoEvent);
}
