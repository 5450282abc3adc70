//! The transition rule: birth on three live neighbours, survival on two or
//! three (B3/S23).

use vstd::prelude::*;
use crate::cell::{Cell, CellState, StateChange};

verus! {

/// The state that follows `state` when `neighbors` of the eight surrounding
/// cells are alive.
pub open spec fn spec_next_state(state: CellState, neighbors: int) -> CellState {
    match state {
        CellState::Alive => if neighbors == 2 || neighbors == 3 {
            CellState::Alive
        } else {
            CellState::Dead
        },
        CellState::Dead => if neighbors == 3 {
            CellState::Alive
        } else {
            CellState::Dead
        },
    }
}

/// Applies the rule to one cell.
pub fn next_state(state: CellState, neighbors: u8) -> (next: CellState)
    ensures
        next == spec_next_state(state, neighbors as int),
{
    match state {
        CellState::Alive => match neighbors {
            0..=1 => CellState::Dead,
            2..=3 => CellState::Alive,
            _ => CellState::Dead,
        },
        CellState::Dead => match neighbors {
            3 => CellState::Alive,
            _ => CellState::Dead,
        },
    }
}

/// The state that follows for `cell`, by its own neighbour count.
pub open spec fn next_of(cell: Cell) -> CellState {
    spec_next_state(cell.state, cell.neighbors as int)
}

/// The cells after the rule was applied to each, every cell by the count it
/// carries.
pub open spec fn transitioned(cells: Seq<Cell>) -> Seq<Cell> {
    Seq::new(cells.len(), |i: int| cells[i].with_state(next_of(cells[i])))
}

/// The notices that the rule gives rise to: one for each cell whose state
/// the rule changes, in the order of the cells, and none for a cell that
/// keeps its state.
pub open spec fn transition_changes(cells: Seq<Cell>) -> Seq<StateChange>
    decreases cells.len(),
{
    if cells.len() == 0 {
        Seq::empty()
    } else {
        let earlier = transition_changes(cells.drop_last());
        let cell = cells.last();
        if next_of(cell) != cell.state {
            earlier.push(StateChange { position: cell.position, state: next_of(cell) })
        } else {
            earlier
        }
    }
}

} // verus!
