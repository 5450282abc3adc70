//! The plain data of the simulation: states, lattice positions and cells.

use vstd::prelude::*;

verus! {

/// The two values a cell can hold.
#[derive(Clone, Copy, Debug, PartialEq, Eq, Hash, Structural)]
pub enum CellState {
    Alive,
    Dead,
}

/// A point of the lattice. A cell keeps its position for its whole life.
#[derive(Clone, Copy, Debug, PartialEq, Eq, Hash, Structural)]
pub struct Position {
    pub x: i32,
    pub z: i32,
}

/// One cell: where it is, what it holds, and how many of its eight
/// neighbours were alive when the neighbours were last counted.
#[derive(Clone, Copy, Debug, PartialEq, Eq, Structural)]
pub struct Cell {
    pub position: Position,
    pub state: CellState,
    pub neighbors: u8,
}

/// What the engine tells the host that draws the cells: the cell at
/// `position` now holds `state`.
#[derive(Clone, Copy, Debug, PartialEq, Eq, Structural)]
pub struct StateChange {
    pub position: Position,
    pub state: CellState,
}

impl Cell {
    /// The notice that reports this cell's present state.
    pub open spec fn notice(self) -> StateChange {
        StateChange { position: self.position, state: self.state }
    }

    /// This cell holding `state` instead.
    pub open spec fn with_state(self, state: CellState) -> Cell {
        Cell { position: self.position, state, neighbors: self.neighbors }
    }

    /// This cell with `count` as its neighbour count.
    pub open spec fn with_neighbors(self, count: int) -> Cell {
        Cell { position: self.position, state: self.state, neighbors: count as u8 }
    }
}

/// The notices that report the present state of every cell of `cells`, in
/// order.
pub open spec fn notices(cells: Seq<Cell>) -> Seq<StateChange> {
    Seq::new(cells.len(), |i: int| cells[i].notice())
}

/// The cells of `cells` holding the states of `states`, one for one.
pub open spec fn with_states(cells: Seq<Cell>, states: Seq<CellState>) -> Seq<Cell> {
    Seq::new(cells.len(), |i: int| cells[i].with_state(states[i]))
}

/// Whether `a` and `b` hold cells at the same positions, in the same order.
pub open spec fn same_positions(a: Seq<Cell>, b: Seq<Cell>) -> bool {
    &&& a.len() == b.len()
    &&& forall|i: int| 0 <= i < a.len() ==> (#[trigger] a[i]).position == b[i].position
}

/// Whether `a` and `b` agree on the neighbour count of every cell.
pub open spec fn same_counts(a: Seq<Cell>, b: Seq<Cell>) -> bool {
    &&& a.len() == b.len()
    &&& forall|i: int| 0 <= i < a.len() ==> (#[trigger] a[i]).neighbors == b[i].neighbors
}

/// Whether `a` and `b` agree on the state of every cell.
pub open spec fn same_states(a: Seq<Cell>, b: Seq<Cell>) -> bool {
    &&& a.len() == b.len()
    &&& forall|i: int| 0 <= i < a.len() ==> (#[trigger] a[i]).state == b[i].state
}

} // verus!
