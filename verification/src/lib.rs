//! Conway's Game of Life on a fixed, bounded square lattice.
//!
//! The engine owns the cells and their states. A host that draws the cells
//! only receives [`StateChange`] notices and never touches the states.
//!
//! - [`lattice`] lays out the points of the grid, and [`grid`] builds one
//!   cell for each point.
//! - [`neighbors`] counts live neighbours, [`rules`] holds the transition
//!   rule, and [`generation`] says what a whole tick does and proves what
//!   follows: counts stay within eight, the rim has fewer neighbours, a lone
//!   cell dies, the block stands still.
//! - [`randomizer`] draws new states, and [`simulation`] puts the clock and
//!   the randomize triggers in order.
//!
//! Two modules call other crates, behind contracts that are trusted and not
//! proved: [`pairs`] calls `itertools`, and [`randomizer`] calls `rand`.

pub mod cell;
pub mod generation;
pub mod grid;
pub mod lattice;
pub mod neighbors;
pub mod pairs;
pub mod randomizer;
pub mod rules;
pub mod simulation;

pub use cell::{Cell, CellState, Position, StateChange};
pub use grid::Grid;
pub use lattice::{ConfigError, Lattice, MAX_AXIS_CELLS};
pub use neighbors::count_neighbors;
pub use rules::next_state;
pub use simulation::{ClockState, RandomCellStates, Simulation, DEFAULT_TICK_MILLIS};
