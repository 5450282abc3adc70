use life_grid::{Cell, CellState, Grid, Position, StateChange};

// A 9 x 9 lattice with points at -18, -14, .., 14.
fn nine_by_nine() -> Grid {
    let grid = Grid::new(18, 3, 1).unwrap();
    assert_eq!(grid.len(), 81);
    grid
}

fn seed(grid: &mut Grid, alive: &[(i32, i32)]) {
    let states: Vec<CellState> = grid
        .cells()
        .iter()
        .map(|c| {
            if alive.contains(&(c.position.x, c.position.z)) {
                CellState::Alive
            } else {
                CellState::Dead
            }
        })
        .collect();
    let live = states.iter().filter(|s| **s == CellState::Alive).count();
    assert_eq!(live, alive.len(), "a seed point is off the lattice");
    assert!(grid.assign_states(&states).is_some());
}

fn live_points(grid: &Grid) -> Vec<(i32, i32)> {
    grid.cells()
        .iter()
        .filter(|c| c.state == CellState::Alive)
        .map(|c| (c.position.x, c.position.z))
        .collect()
}

fn state_of(grid: &Grid, x: i32, z: i32) -> CellState {
    grid.state_at(&Position { x, z }).unwrap()
}

#[test]
fn three_by_three_block_loses_center_and_edges() {
    let mut grid = nine_by_nine();
    let block = [
        (-6, -6), (-6, -2), (-6, 2),
        (-2, -6), (-2, -2), (-2, 2),
        (2, -6), (2, -2), (2, 2),
    ];
    seed(&mut grid, &block);
    grid.neighbor_update();
    let center = grid.index_of(&Position { x: -2, z: -2 }).unwrap();
    assert_eq!(grid.cells()[center].neighbors, 8);
    for corner in [(-6, -6), (-6, 2), (2, -6), (2, 2)] {
        let i = grid.index_of(&Position { x: corner.0, z: corner.1 }).unwrap();
        assert_eq!(grid.cells()[i].neighbors, 3);
    }
    grid.cell_update();
    assert_eq!(state_of(&grid, -2, -2), CellState::Dead);
    for corner in [(-6, -6), (-6, 2), (2, -6), (2, 2)] {
        assert_eq!(state_of(&grid, corner.0, corner.1), CellState::Alive);
    }
    // The middle of each side has five live neighbours and dies.
    for side in [(-6, -2), (-2, -6), (-2, 2), (2, -2)] {
        assert_eq!(state_of(&grid, side.0, side.1), CellState::Dead);
    }
    // Outside, next to the middle of each side, three are alive: a birth.
    for born in [(-10, -2), (6, -2), (-2, -10), (-2, 6)] {
        assert_eq!(state_of(&grid, born.0, born.1), CellState::Alive);
    }
    assert_eq!(live_points(&grid).len(), 8);
}

#[test]
fn block_is_a_still_life() {
    let mut grid = nine_by_nine();
    let block = [(-2, -2), (-2, 2), (2, -2), (2, 2)];
    seed(&mut grid, &block);
    for _ in 0..25 {
        let changes = grid.tick();
        assert!(changes.is_empty());
        assert_eq!(live_points(&grid), block.to_vec());
        for p in block {
            let i = grid.index_of(&Position { x: p.0, z: p.1 }).unwrap();
            assert_eq!(grid.cells()[i].neighbors, 3);
        }
    }
}

#[test]
fn block_in_a_corner_is_a_still_life() {
    let mut grid = nine_by_nine();
    let block = [(-18, -18), (-18, -14), (-14, -18), (-14, -14)];
    seed(&mut grid, &block);
    for _ in 0..5 {
        assert!(grid.tick().is_empty());
        assert_eq!(live_points(&grid), block.to_vec());
    }
}

#[test]
fn lone_cell_dies_and_stays_dead() {
    let mut grid = nine_by_nine();
    seed(&mut grid, &[(2, 6)]);
    let changes = grid.tick();
    assert_eq!(
        changes,
        vec![StateChange { position: Position { x: 2, z: 6 }, state: CellState::Dead }]
    );
    assert!(live_points(&grid).is_empty());
    for _ in 0..10 {
        assert!(grid.tick().is_empty());
        assert!(live_points(&grid).is_empty());
    }
}

#[test]
fn dead_grid_stays_dead() {
    let mut grid = Grid::new(32, 4, 1).unwrap();
    for _ in 0..3 {
        assert!(grid.tick().is_empty());
        assert!(grid.cells().iter().all(|c| c.state == CellState::Dead && c.neighbors == 0));
    }
}

#[test]
fn pair_of_cells_dies() {
    let mut grid = nine_by_nine();
    seed(&mut grid, &[(2, 2), (2, 6)]);
    let changes = grid.tick();
    assert_eq!(changes.len(), 2);
    assert!(live_points(&grid).is_empty());
}

#[test]
fn blinker_turns_and_turns_back() {
    let mut grid = nine_by_nine();
    let upright = [(-2, -6), (-2, -2), (-2, 2)];
    let flat = [(-6, -2), (-2, -2), (2, -2)];
    seed(&mut grid, &upright);
    grid.tick();
    assert_eq!(live_points(&grid), flat.to_vec());
    grid.tick();
    assert_eq!(live_points(&grid), upright.to_vec());
}

#[test]
fn tick_reports_exactly_the_cells_that_changed() {
    let mut grid = nine_by_nine();
    seed(&mut grid, &[(-2, -6), (-2, -2), (-2, 2)]);
    let before: Vec<Cell> = grid.cells().to_vec();
    let changes = grid.tick();
    let expected: Vec<StateChange> = before
        .iter()
        .zip(grid.cells())
        .filter(|(old, new)| old.state != new.state)
        .map(|(_, new)| StateChange { position: new.position, state: new.state })
        .collect();
    assert_eq!(changes, expected);
    assert_eq!(
        changes,
        vec![
            StateChange { position: Position { x: -6, z: -2 }, state: CellState::Alive },
            StateChange { position: Position { x: -2, z: -6 }, state: CellState::Dead },
            StateChange { position: Position { x: -2, z: 2 }, state: CellState::Dead },
            StateChange { position: Position { x: 2, z: -2 }, state: CellState::Alive },
        ]
    );
}

#[test]
fn tick_is_resolver_followed_by_transition() {
    let mut one = nine_by_nine();
    let mut two = nine_by_nine();
    let glider = [(-10, -6), (-6, -2), (-2, -10), (-2, -6), (-2, -2)];
    seed(&mut one, &glider);
    seed(&mut two, &glider);
    for _ in 0..8 {
        let a = one.tick();
        two.neighbor_update();
        let b = two.cell_update();
        assert_eq!(a, b);
        assert_eq!(one.cells(), two.cells());
    }
    assert_eq!(live_points(&one).len(), 5);
}

#[test]
fn transition_before_resolver_gives_another_grid() {
    let upright = [(-2, -6), (-2, -2), (-2, 2)];
    let mut right = nine_by_nine();
    seed(&mut right, &upright);
    right.tick();
    // Out of order: the rule runs on counts that were never taken.
    let mut wrong = nine_by_nine();
    seed(&mut wrong, &upright);
    wrong.cell_update();
    wrong.neighbor_update();
    assert_eq!(live_points(&right), vec![(-6, -2), (-2, -2), (2, -2)]);
    assert!(live_points(&wrong).is_empty());
    assert_ne!(live_points(&right), live_points(&wrong));
}

#[test]
fn counts_come_from_the_state_at_tick_start() {
    // Were a cell to see the states that the same tick wrote, the lower end
    // of the blinker, handled after its middle, would find other neighbours.
    let mut grid = nine_by_nine();
    seed(&mut grid, &[(-2, -6), (-2, -2), (-2, 2)]);
    let before: Vec<Cell> = grid.cells().to_vec();
    let step = grid.lattice().step();
    grid.tick();
    for (old, new) in before.iter().zip(grid.cells()) {
        let count = life_grid::count_neighbors(&old.position, &before, step);
        assert_eq!(new.neighbors as usize, count);
        assert_eq!(new.state, life_grid::next_state(old.state, count as u8));
        assert_eq!(new.position, old.position);
    }
}

#[test]
fn cell_update_uses_the_stored_counts() {
    let mut grid = nine_by_nine();
    seed(&mut grid, &[(-2, -2), (-2, 2), (2, -2), (2, 2)]);
    // No count was taken yet: every cell carries zero, so the block dies.
    let changes = grid.cell_update();
    assert_eq!(changes.len(), 4);
    assert!(changes.iter().all(|c| c.state == CellState::Dead));
    assert!(live_points(&grid).is_empty());
}

#[test]
fn cell_update_keeps_counts_and_positions() {
    let mut grid = nine_by_nine();
    grid.randomize();
    grid.neighbor_update();
    let before: Vec<Cell> = grid.cells().to_vec();
    grid.cell_update();
    for (old, new) in before.iter().zip(grid.cells()) {
        assert_eq!(old.position, new.position);
        assert_eq!(old.neighbors, new.neighbors);
        assert_eq!(new.state, life_grid::next_state(old.state, old.neighbors));
    }
}

#[test]
fn glider_moves_one_step_in_four_ticks() {
    let mut grid = nine_by_nine();
    let glider = [(-10, -6), (-6, -2), (-2, -10), (-2, -6), (-2, -2)];
    seed(&mut grid, &glider);
    for _ in 0..4 {
        grid.tick();
    }
    let moved: Vec<(i32, i32)> = glider.iter().map(|(x, z)| (x + 4, z + 4)).collect();
    let mut expected = moved.clone();
    expected.sort();
    let mut got = live_points(&grid);
    got.sort();
    assert_eq!(got, expected);
}
