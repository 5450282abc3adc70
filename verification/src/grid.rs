//! The grid: every cell of the lattice, built once and kept in lattice
//! order.

use vstd::prelude::*;
use crate::cell::{
    notices,
    same_counts,
    same_positions,
    same_states,
    with_states,
    Cell,
    CellState,
    Position,
    StateChange,
};
use crate::generation::{
    after_ticks,
    all_dead,
    dead_but,
    is_block,
    lemma_block_stays,
    lemma_lone_cell_stays_dead,
    lemma_next_generation_cell,
    next_generation,
};
use crate::lattice::{ConfigError, Lattice, MAX_AXIS_CELLS};
use crate::neighbors::{
    cells_on_lattice,
    is_live_at,
    lemma_live_neighbors_by_position,
    lemma_live_neighbors_by_state,
    lemma_live_neighbors_within_lattice,
    lemma_points_around_rim,
    lemma_resolved_counts,
    live_at,
    live_count,
    live_neighbor_points,
    live_neighbors,
    on_rim,
    points_around,
    positions_distinct,
    resolved,
};
use crate::pairs::{cartesian_product, row_major_pairs, MAX_PAIRS};
use crate::randomizer::random_states;
use crate::rules::{next_state, spec_next_state, transition_changes, transitioned};

verus! {

/// All the cells of one simulation. The cells are made when the grid is
/// built; none is added or removed later, and none ever moves.
#[derive(Clone, Debug)]
pub struct Grid {
    lattice: Lattice,
    cells: Vec<Cell>,
}

impl View for Grid {
    type V = Seq<Cell>;

    /// The cells, in lattice order.
    closed spec fn view(&self) -> Seq<Cell> {
        self.cells@
    }
}

/// How far from zero a coordinate can lie that is looked up: one step from a
/// position, and a step is less than twice the largest coordinate.
const COORDINATE_REACH: i64 = 0x2_0000_0000;

/// Whether every cell of `cells` is dead and has a neighbour count of zero.
pub open spec fn all_fresh(cells: Seq<Cell>) -> bool {
    forall|i: int|
        0 <= i < cells.len() ==> (#[trigger] cells[i]).state == CellState::Dead && cells[i].neighbors
            == 0
}

impl Grid {
    /// The layout that the grid was built with.
    pub closed spec fn spec_lattice(&self) -> Lattice {
        self.lattice
    }

    /// What holds of every grid: its layout is valid, it holds one cell for
    /// each lattice point, in lattice order, and no neighbour count is above
    /// eight.
    pub open spec fn wf(&self) -> bool {
        &&& self.spec_lattice().valid()
        &&& self@.len() == self.spec_lattice().spec_len()
        &&& forall|i: int|
            0 <= i < self@.len() ==> (#[trigger] self@[i]).position == self.spec_lattice().position(
                i,
            ) && self@[i].neighbors <= 8
    }

    /// Builds the grid for a canvas that reaches `canvas_size` to each side,
    /// with cells of edge `cell_size` that lie `cell_gap` apart. Every cell
    /// starts dead, with a neighbour count of zero.
    ///
    /// The numbers are refused where `Lattice::new` refuses them.
    pub fn new(canvas_size: i32, cell_size: i32, cell_gap: i32) -> (r: Result<Grid, ConfigError>)
        ensures
            match r {
                Ok(grid) => {
                    &&& Lattice::spec_new(canvas_size, cell_size, cell_gap) == Ok::<
                        Lattice,
                        ConfigError,
                    >(grid.spec_lattice())
                    &&& grid.wf()
                    &&& all_fresh(grid@)
                    &&& positions_distinct(grid@)
                },
                Err(e) => Lattice::spec_new(canvas_size, cell_size, cell_gap) == Err::<
                    Lattice,
                    ConfigError,
                >(e),
            },
    {
        let lattice = match Lattice::new(canvas_size, cell_size, cell_gap) {
            Ok(lattice) => lattice,
            Err(e) => {
                return Err(e);
            },
        };
        let axis = lattice.axis_coordinates();
        proof {
            lattice.lemma_axis_len_nonnegative();
            let n = lattice.spec_axis_len();
            assert(n * n <= MAX_PAIRS) by (nonlinear_arith)
                requires
                    0 <= n <= MAX_AXIS_CELLS,
            ;
        }
        let points = cartesian_product(&axis, &axis);
        let mut cells: Vec<Cell> = Vec::new();
        let mut i: usize = 0;
        while i < points.len()
            invariant
                lattice.valid(),
                axis@.len() == lattice.spec_axis_len(),
                forall|k: int| 0 <= k < axis@.len() ==> #[trigger] axis@[k] == lattice.coordinate(k),
                points@ == row_major_pairs(axis@, axis@),
                points@.len() == lattice.spec_len(),
                i <= points.len(),
                cells@.len() == i,
                forall|j: int|
                    0 <= j < i ==> #[trigger] cells@[j] == (Cell {
                        position: lattice.position(j),
                        state: CellState::Dead,
                        neighbors: 0,
                    }),
            decreases points.len() - i,
        {
            let (x, z) = points[i];
            proof {
                lattice.lemma_index_split(i as int);
                lattice.lemma_position_is_point(i as int);
            }
            cells.push(Cell { position: Position { x, z }, state: CellState::Dead, neighbors: 0 });
            i += 1;
        }
        let grid = Grid { lattice, cells };
        proof {
            grid.lemma_positions_distinct();
        }
        Ok(grid)
    }

    /// The layout that the grid was built with.
    #[verifier::when_used_as_spec(spec_lattice)]
    pub fn lattice(&self) -> (lattice: Lattice)
        ensures
            lattice == self.spec_lattice(),
    {
        self.lattice
    }

    /// The number of cells.
    pub fn len(&self) -> (n: usize)
        ensures
            n == self@.len(),
    {
        self.cells.len()
    }

    /// The cells, in lattice order.
    pub fn cells(&self) -> (cells: &[Cell])
        ensures
            cells@ == self@,
    {
        self.cells.as_slice()
    }

    /// Counts the live cells on the eight points around `target`. The count
    /// is what a scan of all cells gives, found by looking up the eight
    /// points. It is never above eight, and never above the number of
    /// neighbour positions that the lattice has around `target`: nothing
    /// wraps round.
    pub fn count_neighbors(&self, target: &Position) -> (count: u8)
        requires
            self.wf(),
        ensures
            count == live_neighbors(self@, *target, self.spec_lattice().spec_step()),
            count <= points_around(self.spec_lattice(), target.x as int, target.z as int),
            count <= 8,
    {
        let offset = self.lattice.step();
        let x: i64 = target.x as i64;
        let z: i64 = target.z as i64;
        let up = self.live_count_at(x + offset, z);
        let up_left = self.live_count_at(x + offset, z - offset);
        let up_right = self.live_count_at(x + offset, z + offset);
        let bottom = self.live_count_at(x - offset, z);
        let bottom_left = self.live_count_at(x - offset, z - offset);
        let bottom_right = self.live_count_at(x - offset, z + offset);
        let left = self.live_count_at(x, z - offset);
        let right = self.live_count_at(x, z + offset);
        let count = up + up_left + up_right + bottom + bottom_left + bottom_right + left + right;
        proof {
            self.lemma_positions_distinct();
            self.lemma_cells_on_lattice();
            assert(count == live_neighbor_points(self@, *target, offset as int));
            lemma_live_neighbors_by_position(self@, *target, offset as int);
            lemma_live_neighbors_within_lattice(self@, self.lattice, *target);
            lemma_points_around_rim(self.lattice, target.x as int, target.z as int);
        }
        count
    }

    /// The neighbour resolver: counts the live neighbours of every cell and
    /// stores the count with the cell. States and positions stay as they
    /// are, so every count is taken from the same snapshot.
    pub fn neighbor_update(&mut self)
        requires
            old(self).wf(),
        ensures
            final(self).wf(),
            final(self).spec_lattice() == old(self).spec_lattice(),
            final(self)@ == resolved(old(self)@, old(self).spec_lattice().spec_step()),
            forall|i: int|
                0 <= i < old(self)@.len() ==> 0 <= (#[trigger] final(self)@[i]).neighbors <= 8
                    && final(self)@[i].neighbors == live_neighbors(
                    old(self)@,
                    old(self)@[i].position,
                    old(self).spec_lattice().spec_step(),
                ),
    {
        let n = self.cells.len();
        let ghost before = self.cells@;
        let ghost offset = self.lattice.spec_step();
        let mut i: usize = 0;
        while i < n
            invariant
                i <= n,
                n == before.len(),
                self.cells@.len() == n,
                self.wf(),
                self.lattice == old(self).lattice,
                offset == self.lattice.spec_step(),
                forall|j: int|
                    0 <= j < n ==> (#[trigger] self.cells@[j]).position == before[j].position
                        && self.cells@[j].state == before[j].state,
                forall|j: int| 0 <= j < i ==> #[trigger] self.cells@[j] == resolved(before, offset)[j],
                forall|j: int| i <= j < n ==> #[trigger] self.cells@[j] == before[j],
            decreases n - i,
        {
            let cell = self.cells[i];
            let count = self.count_neighbors(&cell.position);
            proof {
                lemma_live_neighbors_by_state(self.cells@, before, cell.position, offset);
            }
            self.cells[i] = Cell { position: cell.position, state: cell.state, neighbors: count };
            i += 1;
        }
        proof {
            assert(self.cells@ =~= resolved(before, offset));
            old(self).lemma_positions_distinct();
            assert forall|i: int| 0 <= i < before.len() implies {
                &&& 0 <= (#[trigger] self.cells@[i]).neighbors <= 8
                &&& self.cells@[i].neighbors == live_neighbors(before, before[i].position, offset)
            } by {
                lemma_resolved_counts(before, offset, i);
            }
        }
    }

    /// The transition engine: gives every cell the state that the rule
    /// derives from its present state and the neighbour count it carries,
    /// and reports each cell whose state changed.
    pub fn cell_update(&mut self) -> (changes: Vec<StateChange>)
        requires
            old(self).wf(),
        ensures
            final(self).wf(),
            final(self).spec_lattice() == old(self).spec_lattice(),
            final(self)@ == transitioned(old(self)@),
            changes@ == transition_changes(old(self)@),
    {
        let n = self.cells.len();
        let ghost before = self.cells@;
        let mut changes: Vec<StateChange> = Vec::new();
        let mut i: usize = 0;
        while i < n
            invariant
                i <= n,
                n == before.len(),
                self.cells@.len() == n,
                self.lattice == old(self).lattice,
                forall|j: int| 0 <= j < i ==> #[trigger] self.cells@[j] == transitioned(before)[j],
                forall|j: int| i <= j < n ==> #[trigger] self.cells@[j] == before[j],
                changes@ == transition_changes(before.take(i as int)),
            decreases n - i,
        {
            let cell = self.cells[i];
            let new_state = next_state(cell.state, cell.neighbors);
            proof {
                assert(before.take(i + 1).drop_last() =~= before.take(i as int));
            }
            if new_state != cell.state {
                changes.push(StateChange { position: cell.position, state: new_state });
                self.cells[i] = Cell {
                    position: cell.position,
                    state: new_state,
                    neighbors: cell.neighbors,
                };
            }
            i += 1;
        }
        proof {
            assert(before.take(n as int) =~= before);
            assert(self.cells@ =~= transitioned(before));
        }
        changes
    }

    /// One tick: the neighbour resolver runs over the whole grid, and only
    /// after it the transition engine. Every new state follows from the
    /// states that the grid held when the tick began.
    pub fn tick(&mut self) -> (changes: Vec<StateChange>)
        requires
            old(self).wf(),
        ensures
            final(self).wf(),
            final(self).spec_lattice() == old(self).spec_lattice(),
            final(self)@ == next_generation(old(self)@, old(self).spec_lattice().spec_step()),
            changes@ == transition_changes(
                resolved(old(self)@, old(self).spec_lattice().spec_step()),
            ),
            forall|i: int|
                0 <= i < old(self)@.len() ==> (#[trigger] final(self)@[i]).state == spec_next_state(
                    old(self)@[i].state,
                    live_neighbors(
                        old(self)@,
                        old(self)@[i].position,
                        old(self).spec_lattice().spec_step(),
                    ) as int,
                ),
    {
        let ghost before = self@;
        let ghost offset = self.spec_lattice().spec_step();
        proof {
            self.lemma_positions_distinct();
            assert forall|i: int| 0 <= i < before.len() implies (#[trigger] next_generation(
                before,
                offset,
            )[i]).state == spec_next_state(
                before[i].state,
                live_neighbors(before, before[i].position, offset) as int,
            ) by {
                lemma_next_generation_cell(before, offset, i);
            }
        }
        self.neighbor_update();
        self.cell_update()
    }

    /// Gives cell `i` the state `states[i]` and repaints: the result holds
    /// one notice for every cell, changed or not.
    fn apply_states(&mut self, states: &[CellState]) -> (repaint: Vec<StateChange>)
        requires
            old(self).wf(),
            states@.len() == old(self)@.len(),
        ensures
            final(self).wf(),
            final(self).spec_lattice() == old(self).spec_lattice(),
            final(self)@ == with_states(old(self)@, states@),
            repaint@ == notices(final(self)@),
    {
        let n = self.cells.len();
        let ghost before = self.cells@;
        let mut repaint: Vec<StateChange> = Vec::new();
        let mut i: usize = 0;
        while i < n
            invariant
                i <= n,
                n == before.len(),
                n == states@.len(),
                self.cells@.len() == n,
                self.lattice == old(self).lattice,
                forall|j: int|
                    0 <= j < i ==> #[trigger] self.cells@[j] == with_states(before, states@)[j],
                forall|j: int| i <= j < n ==> #[trigger] self.cells@[j] == before[j],
                repaint@.len() == i,
                forall|j: int| 0 <= j < i ==> #[trigger] repaint@[j] == self.cells@[j].notice(),
            decreases n - i,
        {
            let cell = self.cells[i];
            let state = states[i];
            self.cells[i] = Cell { position: cell.position, state, neighbors: cell.neighbors };
            repaint.push(StateChange { position: cell.position, state });
            i += 1;
        }
        proof {
            assert(self.cells@ =~= with_states(before, states@));
            assert(repaint@ =~= notices(self.cells@));
        }
        repaint
    }

    /// Overwrites the state of every cell: cell `i` gets `states[i]`,
    /// whatever it held before. Positions and neighbour counts stay. The
    /// result holds one notice for every cell, changed or not.
    ///
    /// Where `states` does not hold one state for each cell, nothing is
    /// changed and `None` is returned.
    pub fn assign_states(&mut self, states: &[CellState]) -> (repaint: Option<Vec<StateChange>>)
        requires
            old(self).wf(),
        ensures
            final(self).wf(),
            final(self).spec_lattice() == old(self).spec_lattice(),
            match repaint {
                Some(notes) => {
                    &&& states@.len() == old(self)@.len()
                    &&& final(self)@ == with_states(old(self)@, states@)
                    &&& notes@ == notices(final(self)@)
                },
                None => states@.len() != old(self)@.len() && final(self)@ == old(self)@,
            },
    {
        if states.len() == self.cells.len() {
            Some(self.apply_states(states))
        } else {
            None
        }
    }

    /// The randomizer: draws a new state for every cell, each on its own and
    /// with an even chance, and overwrites the old one. Positions and
    /// neighbour counts stay. The result holds one notice for every cell,
    /// changed or not.
    pub fn randomize(&mut self) -> (repaint: Vec<StateChange>)
        requires
            old(self).wf(),
        ensures
            final(self).wf(),
            final(self).spec_lattice() == old(self).spec_lattice(),
            same_positions(final(self)@, old(self)@),
            same_counts(final(self)@, old(self)@),
            repaint@ == notices(final(self)@),
    {
        let states = random_states(self.cells.len());
        self.apply_states(states.as_slice())
    }

    /// The place of the cell at the point `(x, z)`, if the lattice has that
    /// point.
    fn point_index(&self, x: i64, z: i64) -> (found: Option<usize>)
        requires
            self.wf(),
            -COORDINATE_REACH <= x <= COORDINATE_REACH,
            -COORDINATE_REACH <= z <= COORDINATE_REACH,
        ensures
            found is Some <==> self.spec_lattice().has_point(x as int, z as int),
            found matches Some(i) ==> {
                &&& i == self.spec_lattice().index_of(x as int, z as int)
                &&& i < self@.len()
                &&& self@[i as int].position.x == x
                &&& self@[i as int].position.z == z
            },
    {
        let lattice = self.lattice;
        let canvas: i64 = lattice.canvas_size as i64;
        let step = lattice.step();
        let inside = -canvas <= x && x < canvas && -canvas <= z && z < canvas;
        if inside && (x + canvas) % step == 0 && (z + canvas) % step == 0 {
            let n = lattice.axis_len();
            let row = (x + canvas) / step;
            let column = (z + canvas) / step;
            proof {
                lattice.lemma_point_is_position(x as int, z as int);
                lattice.lemma_on_axis_is_coordinate(x as int);
                lattice.lemma_on_axis_is_coordinate(z as int);
                lattice.lemma_index_join(row as int, column as int);
                assert(row * n <= MAX_PAIRS) by (nonlinear_arith)
                    requires
                        0 <= row < n,
                        0 <= n <= MAX_AXIS_CELLS,
                ;
            }
            Some((row * n + column) as usize)
        } else {
            None
        }
    }

    /// What the point `(x, z)` adds to a count of live points: one if a live
    /// cell sits there, else nothing.
    fn live_count_at(&self, x: i64, z: i64) -> (count: u8)
        requires
            self.wf(),
            -COORDINATE_REACH <= x <= COORDINATE_REACH,
            -COORDINATE_REACH <= z <= COORDINATE_REACH,
        ensures
            count == live_count(self@, x as int, z as int),
            count <= 1,
    {
        proof {
            reveal(live_count);
            self.lemma_positions_distinct();
            self.lemma_cells_on_lattice();
        }
        match self.point_index(x, z) {
            Some(i) => {
                let live = self.cells[i].state == CellState::Alive;
                proof {
                    if live {
                        assert(is_live_at(self@[i as int], x as int, z as int));
                    } else if live_at(self@, x as int, z as int) {
                        let j = choose|j: int|
                            0 <= j < self@.len() && is_live_at(#[trigger] self@[j], x as int, z as int);
                        assert(self@[j].position == self@[i as int].position);
                    }
                }
                if live {
                    1
                } else {
                    0
                }
            },
            None => {
                proof {
                    if live_at(self@, x as int, z as int) {
                        let j = choose|j: int|
                            0 <= j < self@.len() && is_live_at(#[trigger] self@[j], x as int, z as int);
                        assert(self.spec_lattice().has_point(
                            self@[j].position.x as int,
                            self@[j].position.z as int,
                        ));
                    }
                }
                0
            },
        }
    }

    /// The place of the cell at `position`, if the grid holds one there.
    pub fn index_of(&self, position: &Position) -> (found: Option<usize>)
        requires
            self.wf(),
        ensures
            match found {
                Some(i) => i < self@.len() && self@[i as int].position == *position,
                None => forall|i: int| 0 <= i < self@.len() ==> self@[i].position != *position,
            },
            found is Some <==> self.spec_lattice().has_point(position.x as int, position.z as int),
            found matches Some(i) ==> i == self.spec_lattice().index_of(
                position.x as int,
                position.z as int,
            ),
    {
        let found = self.point_index(position.x as i64, position.z as i64);
        proof {
            if found is None {
                assert forall|i: int| 0 <= i < self@.len() implies self@[i].position
                    != *position by {
                    self.spec_lattice().lemma_position_is_point(i);
                }
            }
        }
        found
    }

    /// The state of the cell at `position`, if the grid holds one there.
    pub fn state_at(&self, position: &Position) -> (state: Option<CellState>)
        requires
            self.wf(),
        ensures
            match state {
                Some(s) => exists|i: int|
                    0 <= i < self@.len() && (#[trigger] self@[i]).position == *position
                        && self@[i].state == s,
                None => forall|i: int| 0 <= i < self@.len() ==> self@[i].position != *position,
            },
            state is Some <==> self.spec_lattice().has_point(position.x as int, position.z as int),
            state matches Some(s) ==> s == self@[self.spec_lattice().index_of(
                position.x as int,
                position.z as int,
            )].state,
    {
        match self.index_of(position) {
            Some(i) => Some(self.cells[i].state),
            None => None,
        }
    }

    /// Every cell of a grid sits on a point of its lattice.
    pub proof fn lemma_cells_on_lattice(&self)
        requires
            self.wf(),
        ensures
            cells_on_lattice(self@, self.spec_lattice()),
    {
        assert forall|i: int| 0 <= i < self@.len() implies self.spec_lattice().has_point(
            (#[trigger] self@[i]).position.x as int,
            self@[i].position.z as int,
        ) by {
            self.spec_lattice().lemma_position_is_point(i);
        }
    }

    /// Every point of the lattice holds a cell of the grid, the one at place
    /// `index_of(x, z)`.
    pub proof fn lemma_every_point_has_cell(&self, x: int, z: int)
        requires
            self.wf(),
            self.spec_lattice().has_point(x, z),
        ensures
            0 <= self.spec_lattice().index_of(x, z) < self@.len(),
            self@[self.spec_lattice().index_of(x, z)].position.x == x,
            self@[self.spec_lattice().index_of(x, z)].position.z == z,
    {
        self.spec_lattice().lemma_point_is_position(x, z);
    }

    /// Cells at the rim have fewer neighbours. The cell at place `i` never
    /// has more live neighbours than neighbour positions: at most eight, at
    /// most five where the cell lies at the rim of the lattice, and at most
    /// three where it lies in a corner.
    pub proof fn lemma_rim_neighbors(&self, i: int)
        requires
            self.wf(),
            0 <= i < self@.len(),
        ensures
            ({
                let lattice = self.spec_lattice();
                let x = self@[i].position.x as int;
                let z = self@[i].position.z as int;
                let count = live_neighbors(self@, self@[i].position, lattice.spec_step());
                &&& count <= points_around(lattice, x, z) <= 8
                &&& on_rim(lattice, x) || on_rim(lattice, z) ==> count <= 5
                &&& on_rim(lattice, x) && on_rim(lattice, z) ==> count <= 3
            }),
    {
        let lattice = self.spec_lattice();
        self.lemma_positions_distinct();
        self.lemma_cells_on_lattice();
        lemma_live_neighbors_within_lattice(self@, lattice, self@[i].position);
        lemma_points_around_rim(lattice, self@[i].position.x as int, self@[i].position.z as int);
    }

    /// A lone live cell dies and stays dead. Where at most one cell of the
    /// grid is alive, the one at place `a`, every cell is dead after one
    /// tick, and after any number of ticks beyond.
    pub proof fn lemma_lone_cell_dies(&self, a: int, ticks: nat)
        requires
            self.wf(),
            dead_but(self@, a),
            ticks >= 1,
        ensures
            all_dead(after_ticks(self@, self.spec_lattice().spec_step(), ticks)),
    {
        self.lemma_positions_distinct();
        lemma_lone_cell_stays_dead(self@, self.spec_lattice().spec_step(), a, ticks);
    }

    /// The block is a still life. Where the live cells of the grid are the
    /// four cells of a block with its lowest corner at `(x, z)` and no
    /// others, every cell holds the same state after any number of ticks.
    pub proof fn lemma_block_is_still(&self, x: int, z: int, ticks: nat)
        requires
            self.wf(),
            is_block(self@, x, z, self.spec_lattice().spec_step()),
        ensures
            same_states(after_ticks(self@, self.spec_lattice().spec_step(), ticks), self@),
    {
        self.lemma_positions_distinct();
        lemma_block_stays(self@, x, z, self.spec_lattice().spec_step(), ticks);
    }

    /// No two cells of a grid share a position.
    pub proof fn lemma_positions_distinct(&self)
        requires
            self.wf(),
        ensures
            positions_distinct(self@),
    {
        assert forall|i: int, j: int| 0 <= i < j < self@.len() implies (#[trigger] self@[i]).position
            != (#[trigger] self@[j]).position by {
            self.spec_lattice().lemma_positions_differ(i, j);
        }
    }
}

} // verus!
