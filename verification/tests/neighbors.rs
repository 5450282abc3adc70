use life_grid::{count_neighbors, Cell, CellState, Grid, Position};

fn cell_at(x: i32, z: i32, state: CellState) -> Cell {
    Cell { position: Position { x, z }, state, neighbors: 0 }
}

fn fill(grid: &mut Grid, state: CellState) {
    let states = vec![state; grid.len()];
    assert!(grid.assign_states(&states).is_some());
}

#[test]
fn all_eight_directions_count() {
    let target = Position { x: 0, z: 0 };
    let around = [(5, 0), (5, -5), (5, 5), (-5, 0), (-5, -5), (-5, 5), (0, -5), (0, 5)];
    for (k, (x, z)) in around.iter().enumerate() {
        let cells = vec![cell_at(*x, *z, CellState::Alive)];
        assert_eq!(count_neighbors(&target, &cells, 5), 1, "direction {}", k);
    }
    let cells: Vec<Cell> = around.iter().map(|(x, z)| cell_at(*x, *z, CellState::Alive)).collect();
    assert_eq!(count_neighbors(&target, &cells, 5), 8);
}

#[test]
fn dead_neighbors_do_not_count() {
    let target = Position { x: 0, z: 0 };
    let cells = vec![
        cell_at(5, 0, CellState::Dead),
        cell_at(0, 5, CellState::Alive),
        cell_at(-5, -5, CellState::Dead),
    ];
    assert_eq!(count_neighbors(&target, &cells, 5), 1);
}

#[test]
fn the_target_itself_does_not_count() {
    let target = Position { x: 0, z: 0 };
    let cells = vec![cell_at(0, 0, CellState::Alive)];
    assert_eq!(count_neighbors(&target, &cells, 5), 0);
    // With no distance between points the eight points are the target.
    assert_eq!(count_neighbors(&target, &cells, 0), 0);
}

#[test]
fn cells_farther_away_do_not_count() {
    let target = Position { x: 0, z: 0 };
    let cells = vec![
        cell_at(10, 0, CellState::Alive),
        cell_at(5, 10, CellState::Alive),
        cell_at(1, 0, CellState::Alive),
        cell_at(5, 4, CellState::Alive),
        cell_at(-10, -10, CellState::Alive),
    ];
    assert_eq!(count_neighbors(&target, &cells, 5), 0);
}

#[test]
fn no_cells_no_neighbors() {
    assert_eq!(count_neighbors(&Position { x: 3, z: 4 }, &[], 5), 0);
}

#[test]
fn a_negative_distance_names_the_same_points() {
    let target = Position { x: 0, z: 0 };
    let cells = vec![cell_at(5, 0, CellState::Alive), cell_at(-5, 5, CellState::Alive)];
    assert_eq!(count_neighbors(&target, &cells, -5), 2);
}

#[test]
fn extreme_coordinates_do_not_overflow() {
    let target = Position { x: i32::MAX, z: i32::MIN };
    let cells = vec![
        cell_at(i32::MAX - 1, i32::MIN, CellState::Alive),
        cell_at(i32::MAX, i32::MIN + 1, CellState::Alive),
        cell_at(i32::MIN, i32::MAX, CellState::Alive),
    ];
    assert_eq!(count_neighbors(&target, &cells, 1), 2);
    assert_eq!(count_neighbors(&target, &cells, i64::MAX), 0);
    assert_eq!(count_neighbors(&target, &cells, i64::MIN), 0);
    let far = vec![cell_at(i32::MIN, i32::MIN, CellState::Alive)];
    assert_eq!(count_neighbors(&target, &far, u32::MAX as i64), 1);
}

#[test]
fn counts_never_exceed_eight() {
    let mut grid = Grid::new(32, 4, 1).unwrap();
    fill(&mut grid, CellState::Alive);
    grid.neighbor_update();
    for cell in grid.cells() {
        assert!(cell.neighbors <= 8);
    }
    for _ in 0..10 {
        grid.randomize();
        grid.neighbor_update();
        for cell in grid.cells() {
            assert!(cell.neighbors <= 8);
        }
    }
}

#[test]
fn full_grid_has_three_five_or_eight_neighbors() {
    let mut grid = Grid::new(32, 4, 1).unwrap();
    fill(&mut grid, CellState::Alive);
    grid.neighbor_update();
    for cell in grid.cells() {
        let x_rim = cell.position.x == -32 || cell.position.x == 28;
        let z_rim = cell.position.z == -32 || cell.position.z == 28;
        let expected = match (x_rim, z_rim) {
            (true, true) => 3,
            (true, false) | (false, true) => 5,
            (false, false) => 8,
        };
        assert_eq!(cell.neighbors, expected, "at {:?}", cell.position);
    }
}

#[test]
fn corner_cell_has_at_most_three_neighbors() {
    let mut grid = Grid::new(32, 4, 1).unwrap();
    fill(&mut grid, CellState::Alive);
    for corner in [(-32, -32), (-32, 28), (28, -32), (28, 28)] {
        let position = Position { x: corner.0, z: corner.1 };
        assert_eq!(grid.count_neighbors(&position), 3);
    }
}

#[test]
fn the_lattice_does_not_wrap() {
    let mut grid = Grid::new(32, 4, 1).unwrap();
    // Everything on the far rim of x is alive, nothing else.
    let states: Vec<CellState> = grid
        .cells()
        .iter()
        .map(|c| if c.position.x == 28 { CellState::Alive } else { CellState::Dead })
        .collect();
    grid.assign_states(&states).unwrap();
    grid.neighbor_update();
    for cell in grid.cells() {
        if cell.position.x == -32 {
            assert_eq!(cell.neighbors, 0, "wrapped at {:?}", cell.position);
        }
    }
    assert_eq!(grid.count_neighbors(&Position { x: 23, z: 0 - 2 }), 3);
}

#[test]
fn grid_count_matches_the_scan() {
    let mut grid = Grid::new(32, 4, 1).unwrap();
    grid.randomize();
    let step = grid.lattice().step();
    let cells: Vec<Cell> = grid.cells().to_vec();
    for cell in &cells {
        let scanned = count_neighbors(&cell.position, &cells, step);
        assert_eq!(grid.count_neighbors(&cell.position) as usize, scanned);
    }
}

#[test]
fn scan_matches_a_lookup_by_position() {
    let mut grid = Grid::new(32, 4, 1).unwrap();
    grid.randomize();
    let step = grid.lattice().step() as i32;
    for cell in grid.cells() {
        let mut looked_up = 0;
        for dx in [-step, 0, step] {
            for dz in [-step, 0, step] {
                if dx == 0 && dz == 0 {
                    continue;
                }
                let p = Position { x: cell.position.x + dx, z: cell.position.z + dz };
                if grid.state_at(&p) == Some(CellState::Alive) {
                    looked_up += 1;
                }
            }
        }
        assert_eq!(grid.count_neighbors(&cell.position), looked_up);
    }
}

#[test]
fn neighbor_update_keeps_states_and_positions() {
    let mut grid = Grid::new(32, 4, 1).unwrap();
    grid.randomize();
    let before: Vec<Cell> = grid.cells().to_vec();
    grid.neighbor_update();
    for (old, new) in before.iter().zip(grid.cells()) {
        assert_eq!(old.position, new.position);
        assert_eq!(old.state, new.state);
    }
}

#[test]
fn duplicates_in_a_loose_list_are_each_counted() {
    let target = Position { x: 0, z: 0 };
    let cells = vec![cell_at(5, 0, CellState::Alive); 12];
    assert_eq!(count_neighbors(&target, &cells, 5), 12);
}

#[test]
fn lookup_reaches_past_the_largest_coordinates() {
    let mut grid = Grid::new(i32::MAX, i32::MAX, i32::MAX).unwrap();
    fill(&mut grid, CellState::Alive);
    assert_eq!(grid.len(), 1);
    assert_eq!(grid.count_neighbors(&Position { x: i32::MAX, z: i32::MIN }), 0);
    assert_eq!(grid.count_neighbors(&Position { x: i32::MIN, z: i32::MAX }), 0);
    assert_eq!(grid.count_neighbors(&Position { x: -i32::MAX, z: -i32::MAX }), 0);
    // Four cells, two million apart.
    let mut grid = Grid::new(1_000_000, 1_999_999, 0).unwrap();
    fill(&mut grid, CellState::Alive);
    assert_eq!(grid.len(), 4);
    assert_eq!(grid.count_neighbors(&Position { x: -1_000_000, z: -1_000_000 }), 3);
    // One step past the far rim: the two cells of that rim within reach.
    assert_eq!(grid.count_neighbors(&Position { x: 2_999_998, z: 999_999 }), 2);
    assert_eq!(grid.count_neighbors(&Position { x: 2_999_998, z: 2_999_998 }), 1);
}

#[test]
fn count_off_the_lattice_sees_no_neighbors() {
    let mut grid = Grid::new(32, 4, 1).unwrap();
    fill(&mut grid, CellState::Alive);
    assert_eq!(grid.count_neighbors(&Position { x: -31, z: -32 }), 0);
    assert_eq!(grid.count_neighbors(&Position { x: 0, z: 0 }), 0);
    // A point one step outside the rim has the rim for a neighbour.
    assert_eq!(grid.count_neighbors(&Position { x: -37, z: -32 }), 2);
    assert_eq!(grid.count_neighbors(&Position { x: 33, z: 3 }), 3);
}
