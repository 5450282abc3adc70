use life_grid::{
    CellState, ClockState, ConfigError, Grid, Position, Simulation, StateChange, DEFAULT_TICK_MILLIS,
};

fn blinker_grid() -> Grid {
    let mut grid = Grid::new(18, 3, 1).unwrap();
    let alive = [(-2, -6), (-2, -2), (-2, 2)];
    let states: Vec<CellState> = grid
        .cells()
        .iter()
        .map(|c| {
            if alive.contains(&(c.position.x, c.position.z)) {
                CellState::Alive
            } else {
                CellState::Dead
            }
        })
        .collect();
    grid.assign_states(&states).unwrap();
    grid
}

fn alive_in(sim: &Simulation) -> Vec<(i32, i32)> {
    sim.grid()
        .cells()
        .iter()
        .filter(|c| c.state == CellState::Alive)
        .map(|c| (c.position.x, c.position.z))
        .collect()
}

#[test]
fn setup_cells_builds_a_dead_grid_and_asks_for_one_reset() {
    let sim = Simulation::setup_cells(32, 4, 1).unwrap();
    assert_eq!(sim.grid().len(), 169);
    assert!(sim.grid().cells().iter().all(|c| c.state == CellState::Dead && c.neighbors == 0));
    assert_eq!(sim.pending(), 1);
    assert_eq!(sim.clock(), ClockState::Idle);
    assert_eq!(sim.tick_millis(), 500);
    assert_eq!(DEFAULT_TICK_MILLIS, 500);
}

#[test]
fn setup_cells_refuses_what_the_grid_refuses() {
    assert_eq!(Simulation::setup_cells(32, 0, 1).err(), Some(ConfigError::CellSize));
    assert_eq!(Simulation::setup_cells(32, 4, -1).err(), Some(ConfigError::CellGap));
    assert_eq!(Simulation::setup_cells(4097, 1, 0).err(), Some(ConfigError::TooManyCells));
}

#[test]
fn new_simulation_is_idle_with_nothing_waiting() {
    let sim = Simulation::new(blinker_grid());
    assert_eq!(sim.clock(), ClockState::Idle);
    assert_eq!(sim.pending(), 0);
    assert_eq!(sim.tick_millis(), DEFAULT_TICK_MILLIS);
    assert_eq!(alive_in(&sim), vec![(-2, -6), (-2, -2), (-2, 2)]);
}

#[test]
fn idle_clock_does_not_tick() {
    let mut sim = Simulation::new(blinker_grid());
    sim.input_actions(true);
    for _ in 0..3 {
        assert!(sim.tick().is_empty());
    }
    assert_eq!(alive_in(&sim), vec![(-2, -6), (-2, -2), (-2, 2)]);
    assert_eq!(sim.pending(), 1);
    assert_eq!(sim.clock(), ClockState::Idle);
}

#[test]
fn running_clock_ticks() {
    let mut sim = Simulation::new(blinker_grid());
    sim.start();
    assert_eq!(sim.clock(), ClockState::Running);
    let notes = sim.tick();
    assert_eq!(alive_in(&sim), vec![(-6, -2), (-2, -2), (2, -2)]);
    assert_eq!(
        notes,
        vec![
            StateChange { position: Position { x: -6, z: -2 }, state: CellState::Alive },
            StateChange { position: Position { x: -2, z: -6 }, state: CellState::Dead },
            StateChange { position: Position { x: -2, z: 2 }, state: CellState::Dead },
            StateChange { position: Position { x: 2, z: -2 }, state: CellState::Alive },
        ]
    );
    sim.tick();
    assert_eq!(alive_in(&sim), vec![(-2, -6), (-2, -2), (-2, 2)]);
}

#[test]
fn start_twice_keeps_the_clock_running() {
    let mut sim = Simulation::new(blinker_grid());
    sim.start();
    sim.start();
    assert_eq!(sim.clock(), ClockState::Running);
    assert_eq!(sim.pending(), 0);
}

#[test]
fn input_actions_queues_one_trigger_per_request() {
    let mut sim = Simulation::new(blinker_grid());
    sim.input_actions(false);
    assert_eq!(sim.pending(), 0);
    sim.input_actions(true);
    sim.input_actions(false);
    sim.input_actions(true);
    sim.input_actions(true);
    assert_eq!(sim.pending(), 3);
    assert_eq!(alive_in(&sim), vec![(-2, -6), (-2, -2), (-2, 2)]);
}

#[test]
fn random_cell_states_without_a_trigger_does_nothing() {
    let mut sim = Simulation::new(blinker_grid());
    assert!(sim.random_cell_states().is_empty());
    assert_eq!(alive_in(&sim), vec![(-2, -6), (-2, -2), (-2, 2)]);
}

#[test]
fn random_cell_states_serves_every_trigger() {
    let mut sim = Simulation::setup_cells(32, 4, 1).unwrap();
    sim.input_actions(true);
    sim.input_actions(true);
    assert_eq!(sim.pending(), 3);
    let repaint = sim.random_cell_states();
    assert_eq!(sim.pending(), 0);
    assert_eq!(repaint.len(), 3 * 169);
    let cells = sim.grid().cells();
    for round in 0..3 {
        for i in 0..169 {
            assert_eq!(repaint[round * 169 + i].position, cells[i].position);
        }
    }
    // The last round tells what the grid holds now.
    for i in 0..169 {
        assert_eq!(repaint[2 * 169 + i].state, cells[i].state);
    }
    assert!(sim.random_cell_states().is_empty());
}

#[test]
fn random_cell_states_works_while_the_clock_is_idle() {
    let mut sim = Simulation::setup_cells(32, 4, 1).unwrap();
    let repaint = sim.random_cell_states();
    assert_eq!(repaint.len(), 169);
    assert_eq!(sim.clock(), ClockState::Idle);
    let live = sim.grid().cells().iter().filter(|c| c.state == CellState::Alive).count();
    assert!(live > 0 && live < 169);
}

#[test]
fn tick_serves_waiting_triggers_first() {
    let mut sim = Simulation::setup_cells(32, 4, 1).unwrap();
    sim.start();
    let notes = sim.tick();
    assert_eq!(sim.pending(), 0);
    // One full repaint, followed by the changes of the tick.
    assert!(notes.len() >= 169);
    let cells = sim.grid().cells();
    let mut randomized: Vec<CellState> = notes[..169].iter().map(|n| n.state).collect();
    for i in 0..169 {
        assert_eq!(notes[i].position, cells[i].position);
    }
    // Replaying the changes on the repainted states gives the grid.
    for change in &notes[169..] {
        let i = sim.grid().index_of(&change.position).unwrap();
        assert_ne!(randomized[i], change.state);
        randomized[i] = change.state;
    }
    let now: Vec<CellState> = cells.iter().map(|c| c.state).collect();
    assert_eq!(randomized, now);
}

#[test]
fn tick_after_randomize_follows_the_rule() {
    let mut sim = Simulation::setup_cells(32, 4, 1).unwrap();
    sim.start();
    sim.random_cell_states();
    let before = sim.grid().cells().to_vec();
    let step = sim.grid().lattice().step();
    sim.tick();
    for (old, new) in before.iter().zip(sim.grid().cells()) {
        let count = life_grid::count_neighbors(&old.position, &before, step);
        assert_eq!(new.state, life_grid::next_state(old.state, count as u8));
    }
}

#[test]
fn tick_period_can_be_set() {
    let mut sim = Simulation::new(blinker_grid());
    assert_eq!(sim.set_tick_millis(250), Ok(()));
    assert_eq!(sim.tick_millis(), 250);
    assert_eq!(sim.set_tick_millis(u64::MAX), Ok(()));
    assert_eq!(sim.tick_millis(), u64::MAX);
}

#[test]
fn tick_period_of_zero_is_refused() {
    let mut sim = Simulation::new(blinker_grid());
    assert_eq!(sim.set_tick_millis(0), Err(ConfigError::TickPeriod));
    assert_eq!(sim.tick_millis(), 500);
    sim.set_tick_millis(125).unwrap();
    assert_eq!(sim.set_tick_millis(0), Err(ConfigError::TickPeriod));
    assert_eq!(sim.tick_millis(), 125);
}

#[test]
fn grid_keeps_its_cells_for_good() {
    let mut sim = Simulation::setup_cells(32, 4, 1).unwrap();
    let positions: Vec<Position> = sim.grid().cells().iter().map(|c| c.position).collect();
    sim.start();
    for round in 0..20 {
        sim.input_actions(round % 7 == 0);
        sim.tick();
        let now: Vec<Position> = sim.grid().cells().iter().map(|c| c.position).collect();
        assert_eq!(now, positions);
    }
}
