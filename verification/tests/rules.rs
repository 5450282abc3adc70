use life_grid::{next_state, CellState};

#[test]
fn live_cell_with_fewer_than_two_neighbors_dies() {
    assert_eq!(next_state(CellState::Alive, 0), CellState::Dead);
    assert_eq!(next_state(CellState::Alive, 1), CellState::Dead);
}

#[test]
fn live_cell_with_two_or_three_neighbors_lives_on() {
    assert_eq!(next_state(CellState::Alive, 2), CellState::Alive);
    assert_eq!(next_state(CellState::Alive, 3), CellState::Alive);
}

#[test]
fn live_cell_with_four_or_more_neighbors_dies() {
    for n in 4..=8 {
        assert_eq!(next_state(CellState::Alive, n), CellState::Dead);
    }
    assert_eq!(next_state(CellState::Alive, 200), CellState::Dead);
}

#[test]
fn dead_cell_with_three_neighbors_is_born() {
    assert_eq!(next_state(CellState::Dead, 3), CellState::Alive);
}

#[test]
fn dead_cell_stays_dead_otherwise() {
    for n in [0u8, 1, 2, 4, 5, 6, 7, 8, 255] {
        assert_eq!(next_state(CellState::Dead, n), CellState::Dead);
    }
}
