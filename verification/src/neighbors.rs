//! The neighbour resolver: how many of the eight cells around a lattice point
//! are alive.
//!
//! The neighbourhood is the Moore neighbourhood, and it does not wrap: a
//! point past the rim of the lattice holds no cell and so adds nothing.
//!
//! The count is stated twice. `live_neighbors` is the scan: it walks all
//! cells and counts those that sit on one of the eight points and are alive.
//! `live_neighbor_points` is the lookup: it asks each of the eight points
//! whether a live cell sits there. `lemma_live_neighbors_by_position` shows
//! that the two agree on every grid.

use vstd::prelude::*;
use crate::cell::{same_positions, same_states, Cell, CellState, Position};
use crate::lattice::Lattice;

verus! {

/// Whether `p` is one of the eight points that lie `offset` away from
/// `target` along one axis or along both.
pub open spec fn is_neighbor_position(p: Position, target: Position, offset: int) -> bool {
    let dx = p.x - target.x;
    let dz = p.z - target.z;
    ||| dx == offset && dz == 0
    ||| dx == offset && dz == -offset
    ||| dx == offset && dz == offset
    ||| dx == -offset && dz == 0
    ||| dx == -offset && dz == -offset
    ||| dx == -offset && dz == offset
    ||| dx == 0 && dz == -offset
    ||| dx == 0 && dz == offset
}

/// Whether `cell` counts towards the neighbours of `target`: it sits on one
/// of the eight points around `target`, it is not at `target` itself, and it
/// is alive.
pub open spec fn is_live_neighbor(cell: Cell, target: Position, offset: int) -> bool {
    &&& cell.position != target
    &&& is_neighbor_position(cell.position, target, offset)
    &&& cell.state == CellState::Alive
}

/// The number of cells of `cells` that count towards the neighbours of
/// `target`.
pub open spec fn live_neighbors(cells: Seq<Cell>, target: Position, offset: int) -> nat
    decreases cells.len(),
{
    if cells.len() == 0 {
        0
    } else {
        live_neighbors(cells.drop_last(), target, offset) + if is_live_neighbor(
            cells.last(),
            target,
            offset,
        ) {
            1nat
        } else {
            0nat
        }
    }
}

/// The cells after the neighbours of each were counted: every cell carries
/// the number of its live neighbours among `cells`.
pub open spec fn resolved(cells: Seq<Cell>, offset: int) -> Seq<Cell> {
    Seq::new(
        cells.len(),
        |i: int| cells[i].with_neighbors(live_neighbors(cells, cells[i].position, offset) as int),
    )
}

/// No two cells of `cells` share a position.
pub open spec fn positions_distinct(cells: Seq<Cell>) -> bool {
    forall|i: int, j: int|
        0 <= i < j < cells.len() ==> (#[trigger] cells[i]).position != (#[trigger] cells[j]).position
}

/// Whether every cell of `cells` sits on a point of `lattice`.
pub open spec fn cells_on_lattice(cells: Seq<Cell>, lattice: Lattice) -> bool {
    forall|i: int|
        0 <= i < cells.len() ==> lattice.has_point(
            (#[trigger] cells[i]).position.x as int,
            cells[i].position.z as int,
        )
}

/// Whether `cell` is alive and sits at the point `(x, z)`.
pub open spec fn is_live_at(cell: Cell, x: int, z: int) -> bool {
    cell.position.x == x && cell.position.z == z && cell.state == CellState::Alive
}

/// Whether some cell of `cells` is alive at the point `(x, z)`.
pub open spec fn live_at(cells: Seq<Cell>, x: int, z: int) -> bool {
    exists|i: int| 0 <= i < cells.len() && is_live_at(#[trigger] cells[i], x, z)
}

/// What the point `(x, z)` adds to a count of live points: one if a cell of
/// `cells` is alive there, else nothing.
#[verifier::opaque]
pub open spec fn live_count(cells: Seq<Cell>, x: int, z: int) -> nat {
    if live_at(cells, x, z) {
        1
    } else {
        0
    }
}

/// One if `cell` is alive at `(x, z)`, else nothing.
#[verifier::opaque]
pub open spec fn held_count(cell: Cell, x: int, z: int) -> nat {
    if is_live_at(cell, x, z) {
        1
    } else {
        0
    }
}

/// One if `(x, z)` is a point of `lattice`, else nothing.
#[verifier::opaque]
pub open spec fn point_count(lattice: Lattice, x: int, z: int) -> nat {
    if lattice.has_point(x, z) {
        1
    } else {
        0
    }
}

/// The sum of `f` over the eight points that lie `offset` away from `(x, z)`
/// along one axis or along both.
pub open spec fn sum_around(f: spec_fn(int, int) -> nat, x: int, z: int, offset: int) -> nat {
    f(x + offset, z) + f(x + offset, z - offset) + f(x + offset, z + offset) + f(x - offset, z) + f(
        x - offset,
        z - offset,
    ) + f(x - offset, z + offset) + f(x, z - offset) + f(x, z + offset)
}

/// The number of the eight points around `target` at which `cells` holds a
/// live cell: the count that a lookup by position gives.
pub open spec fn live_neighbor_points(cells: Seq<Cell>, target: Position, offset: int) -> nat {
    sum_around(|x: int, z: int| live_count(cells, x, z), target.x as int, target.z as int, offset)
}

/// The number of the eight points around `target` at which `cell` is alive:
/// what one cell adds to `live_neighbor_points`.
pub open spec fn points_held(cell: Cell, target: Position, offset: int) -> nat {
    sum_around(|x: int, z: int| held_count(cell, x, z), target.x as int, target.z as int, offset)
}

/// The number of the eight points around `(x, z)` that are points of
/// `lattice`: the neighbour positions that exist. The lattice does not wrap,
/// so at its rim some of the eight are missing.
pub open spec fn points_around(lattice: Lattice, x: int, z: int) -> nat {
    sum_around(|px: int, pz: int| point_count(lattice, px, pz), x, z, lattice.spec_step())
}

/// Whether the coordinate `v` lies at the rim of `lattice`: one step down or
/// one step up leaves the canvas.
pub open spec fn on_rim(lattice: Lattice, v: int) -> bool {
    v - lattice.spec_step() < -lattice.canvas_size || v + lattice.spec_step()
        >= lattice.canvas_size
}

/// Whether `d` is `offset` or its negative.
fn reaches(d: i64, offset: i64) -> (b: bool)
    ensures
        b == (d == offset || d == -offset),
{
    d == offset || (offset != i64::MIN && d == -offset)
}

/// Whether `p` is one of the eight points around `target`.
fn is_neighbor(p: &Position, target: &Position, offset: i64) -> (b: bool)
    ensures
        b == is_neighbor_position(*p, *target, offset as int),
{
    let dx: i64 = p.x as i64 - target.x as i64;
    let dz: i64 = p.z as i64 - target.z as i64;
    let x_away = reaches(dx, offset);
    let z_away = reaches(dz, offset);
    (x_away && (dz == 0 || z_away)) || (dx == 0 && z_away)
}

/// Counts the live cells of `cells` on the eight points around `target`,
/// `offset` being the distance between lattice points.
///
/// Every cell is looked at once. A cell at `target` itself never counts.
pub fn count_neighbors(target: &Position, cells: &[Cell], offset: i64) -> (count: usize)
    ensures
        count == live_neighbors(cells@, *target, offset as int),
{
    let mut result: usize = 0;
    let mut i: usize = 0;
    while i < cells.len()
        invariant
            i <= cells.len(),
            result <= i,
            result == live_neighbors(cells@.take(i as int), *target, offset as int),
        decreases cells.len() - i,
    {
        let cell = &cells[i];
        proof {
            assert(cells@.take(i + 1).drop_last() =~= cells@.take(i as int));
        }
        if cell.position != *target && is_neighbor(&cell.position, target, offset) && cell.state
            == CellState::Alive {
            result += 1;
        }
        i += 1;
    }
    proof {
        assert(cells@.take(cells.len() as int) =~= cells@);
    }
    result
}

/// The count looks at positions and states only: two runs of cells that
/// agree on both give the same count.
pub proof fn lemma_live_neighbors_by_state(
    a: Seq<Cell>,
    b: Seq<Cell>,
    target: Position,
    offset: int,
)
    requires
        same_positions(a, b),
        same_states(a, b),
    ensures
        live_neighbors(a, target, offset) == live_neighbors(b, target, offset),
    decreases a.len(),
{
    if a.len() > 0 {
        let a0 = a.drop_last();
        let b0 = b.drop_last();
        assert forall|i: int| 0 <= i < a0.len() implies (#[trigger] a0[i]).position
            == b0[i].position && a0[i].state == b0[i].state by {
            assert(a0[i] == a[i]);
        }
        assert(a.last() == a[a.len() - 1]);
        lemma_live_neighbors_by_state(a0, b0, target, offset);
    }
}

/// Where `f` is `g` plus `h` at every point, the sums around a point add up
/// the same way.
pub proof fn lemma_sum_around_add(
    f: spec_fn(int, int) -> nat,
    g: spec_fn(int, int) -> nat,
    h: spec_fn(int, int) -> nat,
    x: int,
    z: int,
    offset: int,
)
    requires
        forall|px: int, pz: int| #[trigger] f(px, pz) == g(px, pz) + h(px, pz),
    ensures
        sum_around(f, x, z, offset) == sum_around(g, x, z, offset) + sum_around(h, x, z, offset),
{
}

/// Where `f` is at most `g` at every point, so are the sums around a point.
pub proof fn lemma_sum_around_le(
    f: spec_fn(int, int) -> nat,
    g: spec_fn(int, int) -> nat,
    x: int,
    z: int,
    offset: int,
)
    requires
        forall|px: int, pz: int| #[trigger] f(px, pz) <= g(px, pz),
    ensures
        sum_around(f, x, z, offset) <= sum_around(g, x, z, offset),
{
}

/// Where `f` and `g` agree at every point, so do the sums around a point.
pub proof fn lemma_sum_around_eq(
    f: spec_fn(int, int) -> nat,
    g: spec_fn(int, int) -> nat,
    x: int,
    z: int,
    offset: int,
)
    requires
        forall|px: int, pz: int| #[trigger] f(px, pz) == g(px, pz),
    ensures
        sum_around(f, x, z, offset) == sum_around(g, x, z, offset),
{
}

/// What a last cell adds to one point: where no two cells share a position,
/// the point counts one more if the last cell is alive there, and else what
/// it counted before.
proof fn lemma_live_count_last(cells: Seq<Cell>, x: int, z: int)
    requires
        cells.len() > 0,
        positions_distinct(cells),
    ensures
        live_count(cells, x, z) == live_count(cells.drop_last(), x, z) + held_count(
            cells.last(),
            x,
            z,
        ),
{
    reveal(live_count);
    reveal(held_count);
    let init = cells.drop_last();
    let last = cells.last();
    if live_at(cells, x, z) {
        let i = choose|i: int| 0 <= i < cells.len() && is_live_at(#[trigger] cells[i], x, z);
        if i < cells.len() - 1 {
            assert(is_live_at(init[i], x, z));
        }
    }
    if live_at(init, x, z) {
        let i = choose|i: int| 0 <= i < init.len() && is_live_at(#[trigger] init[i], x, z);
        assert(is_live_at(cells[i], x, z));
        if is_live_at(last, x, z) {
            assert(cells[i].position == cells[cells.len() - 1].position);
        }
    }
    if is_live_at(last, x, z) {
        assert(is_live_at(cells[cells.len() - 1], x, z));
    }
}

/// A prefix of cells with distinct positions has distinct positions.
proof fn lemma_distinct_drop_last(cells: Seq<Cell>)
    requires
        cells.len() > 0,
        positions_distinct(cells),
    ensures
        positions_distinct(cells.drop_last()),
{
    let init = cells.drop_last();
    assert forall|i: int, j: int| 0 <= i < j < init.len() implies (#[trigger] init[i]).position
        != (#[trigger] init[j]).position by {
        assert(init[i] == cells[i]);
        assert(init[j] == cells[j]);
    }
}

/// What a last cell adds to the eight points around `target`.
proof fn lemma_live_points_last(cells: Seq<Cell>, target: Position, offset: int)
    requires
        cells.len() > 0,
        positions_distinct(cells),
    ensures
        live_neighbor_points(cells, target, offset) == live_neighbor_points(
            cells.drop_last(),
            target,
            offset,
        ) + points_held(cells.last(), target, offset),
{
    let f = |x: int, z: int| live_count(cells, x, z);
    let g = |x: int, z: int| live_count(cells.drop_last(), x, z);
    let h = |x: int, z: int| held_count(cells.last(), x, z);
    assert forall|px: int, pz: int| #[trigger] f(px, pz) == g(px, pz) + h(px, pz) by {
        lemma_live_count_last(cells, px, pz);
    }
    lemma_sum_around_add(f, g, h, target.x as int, target.z as int, offset);
}

/// Where there are no cells, no point is live.
proof fn lemma_no_cells_no_points(cells: Seq<Cell>, target: Position, offset: int)
    requires
        cells.len() == 0,
    ensures
        live_neighbor_points(cells, target, offset) == 0,
{
    reveal(live_count);
}

/// A cell that counts towards the neighbours of `target` is alive at one of
/// the eight points around it at least, and, where the points are a positive
/// distance apart, at one of them exactly; a cell that does not count is
/// alive at none of them.
pub proof fn lemma_points_held(cell: Cell, target: Position, offset: int)
    ensures
        is_live_neighbor(cell, target, offset) ==> points_held(cell, target, offset) >= 1,
        offset > 0 && is_live_neighbor(cell, target, offset) ==> points_held(cell, target, offset)
            == 1,
        offset > 0 && !is_live_neighbor(cell, target, offset) ==> points_held(cell, target, offset)
            == 0,
{
    reveal(held_count);
}

/// Scanning and looking up agree. Where no two cells share a position and
/// the lattice points are a positive distance apart, the number of cells
/// that count towards the neighbours of `target` is the number of the eight
/// points around `target` that hold a live cell.
pub proof fn lemma_live_neighbors_by_position(cells: Seq<Cell>, target: Position, offset: int)
    requires
        positions_distinct(cells),
        offset > 0,
    ensures
        live_neighbors(cells, target, offset) == live_neighbor_points(cells, target, offset),
    decreases cells.len(),
{
    if cells.len() > 0 {
        lemma_distinct_drop_last(cells);
        lemma_live_neighbors_by_position(cells.drop_last(), target, offset);
        lemma_live_points_last(cells, target, offset);
        lemma_points_held(cells.last(), target, offset);
    } else {
        lemma_no_cells_no_points(cells, target, offset);
    }
}

/// Whatever the distance between lattice points, the scan never finds more
/// live neighbours than there are live points around `target`.
pub proof fn lemma_live_neighbors_below_points(cells: Seq<Cell>, target: Position, offset: int)
    requires
        positions_distinct(cells),
    ensures
        live_neighbors(cells, target, offset) <= live_neighbor_points(cells, target, offset),
    decreases cells.len(),
{
    if cells.len() > 0 {
        lemma_distinct_drop_last(cells);
        lemma_live_neighbors_below_points(cells.drop_last(), target, offset);
        lemma_live_points_last(cells, target, offset);
        lemma_points_held(cells.last(), target, offset);
    }
}

/// A cell has at most eight live neighbours: where no two cells share a
/// position, the count is between zero and eight.
pub proof fn lemma_live_neighbors_at_most_eight(cells: Seq<Cell>, target: Position, offset: int)
    requires
        positions_distinct(cells),
    ensures
        0 <= live_neighbors(cells, target, offset) <= 8,
{
    lemma_live_neighbors_below_points(cells, target, offset);
    reveal(live_count);
}

/// After the neighbours were counted, every cell carries its true count,
/// and that count is between zero and eight.
pub proof fn lemma_resolved_counts(cells: Seq<Cell>, offset: int, i: int)
    requires
        positions_distinct(cells),
        0 <= i < cells.len(),
    ensures
        resolved(cells, offset)[i].neighbors == live_neighbors(cells, cells[i].position, offset),
        0 <= resolved(cells, offset)[i].neighbors <= 8,
        resolved(cells, offset)[i].position == cells[i].position,
        resolved(cells, offset)[i].state == cells[i].state,
{
    lemma_live_neighbors_at_most_eight(cells, cells[i].position, offset);
}

/// At the rim neighbour positions are missing: a point at the rim of one
/// axis has at most five of them, and a point at the rim of both axes, a
/// corner, has at most three.
pub proof fn lemma_points_around_rim(lattice: Lattice, x: int, z: int)
    ensures
        points_around(lattice, x, z) <= 8,
        on_rim(lattice, x) || on_rim(lattice, z) ==> points_around(lattice, x, z) <= 5,
        on_rim(lattice, x) && on_rim(lattice, z) ==> points_around(lattice, x, z) <= 3,
{
    reveal(point_count);
}

/// A live cell of cells that sit on the lattice is at a lattice point.
proof fn lemma_live_count_on_lattice(cells: Seq<Cell>, lattice: Lattice, x: int, z: int)
    requires
        cells_on_lattice(cells, lattice),
    ensures
        live_count(cells, x, z) <= point_count(lattice, x, z),
{
    reveal(live_count);
    reveal(point_count);
    if live_at(cells, x, z) {
        let i = choose|i: int| 0 <= i < cells.len() && is_live_at(#[trigger] cells[i], x, z);
        assert(lattice.has_point(cells[i].position.x as int, cells[i].position.z as int));
    }
}

/// No cell has more live neighbours than neighbour positions that exist:
/// nothing is counted past the rim of the lattice.
pub proof fn lemma_live_neighbors_within_lattice(
    cells: Seq<Cell>,
    lattice: Lattice,
    target: Position,
)
    requires
        positions_distinct(cells),
        cells_on_lattice(cells, lattice),
    ensures
        live_neighbors(cells, target, lattice.spec_step()) <= points_around(
            lattice,
            target.x as int,
            target.z as int,
        ),
{
    let f = |x: int, z: int| live_count(cells, x, z);
    let g = |px: int, pz: int| point_count(lattice, px, pz);
    lemma_live_neighbors_below_points(cells, target, lattice.spec_step());
    assert forall|px: int, pz: int| #[trigger] f(px, pz) <= g(px, pz) by {
        lemma_live_count_on_lattice(cells, lattice, px, pz);
    }
    lemma_sum_around_le(f, g, target.x as int, target.z as int, lattice.spec_step());
}

} // verus!
