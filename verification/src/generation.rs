//! What a tick does to a run of cells, and what follows from it.

use vstd::prelude::*;
use crate::cell::{same_positions, same_states, Cell, CellState, Position, StateChange};
use crate::neighbors::{
    held_count,
    is_live_at,
    lemma_live_neighbors_below_points,
    lemma_live_neighbors_by_position,
    lemma_points_held,
    lemma_resolved_counts,
    lemma_sum_around_eq,
    lemma_sum_around_le,
    live_at,
    live_count,
    live_neighbors,
    positions_distinct,
    resolved,
    sum_around,
};
use crate::rules::{next_of, spec_next_state, transition_changes, transitioned};

verus! {

/// The cells one tick later: the neighbours of every cell are counted on
/// `cells` as it stands, and the rule is applied to every cell with that
/// count.
pub open spec fn next_generation(cells: Seq<Cell>, offset: int) -> Seq<Cell> {
    transitioned(resolved(cells, offset))
}

/// The cells `ticks` ticks later.
pub open spec fn after_ticks(cells: Seq<Cell>, offset: int, ticks: nat) -> Seq<Cell>
    decreases ticks,
{
    if ticks == 0 {
        cells
    } else {
        next_generation(after_ticks(cells, offset, (ticks - 1) as nat), offset)
    }
}

/// The notices of `ticks` ticks in a row, the oldest first: for each tick one
/// notice for each cell whose state that tick changed.
pub open spec fn tick_changes(cells: Seq<Cell>, offset: int, ticks: nat) -> Seq<StateChange>
    decreases ticks,
{
    if ticks == 0 {
        Seq::empty()
    } else {
        tick_changes(cells, offset, (ticks - 1) as nat) + transition_changes(
            resolved(after_ticks(cells, offset, (ticks - 1) as nat), offset),
        )
    }
}

/// Whether every cell of `cells` is dead.
pub open spec fn all_dead(cells: Seq<Cell>) -> bool {
    forall|i: int| 0 <= i < cells.len() ==> (#[trigger] cells[i]).state == CellState::Dead
}

/// Whether no cell of `cells` but the one at place `a` is alive.
pub open spec fn dead_but(cells: Seq<Cell>, a: int) -> bool {
    forall|i: int| 0 <= i < cells.len() && i != a ==> (#[trigger] cells[i]).state == CellState::Dead
}

/// A tick reads one snapshot. The new state of every cell follows from its
/// old state and from the live neighbours it had among the old cells; no
/// cell sees a state that the same tick wrote. A tick moves no cell.
pub proof fn lemma_next_generation_cell(cells: Seq<Cell>, offset: int, i: int)
    requires
        positions_distinct(cells),
        0 <= i < cells.len(),
    ensures
        next_generation(cells, offset).len() == cells.len(),
        next_generation(cells, offset)[i].position == cells[i].position,
        next_generation(cells, offset)[i].neighbors == live_neighbors(
            cells,
            cells[i].position,
            offset,
        ),
        next_generation(cells, offset)[i].state == spec_next_state(
            cells[i].state,
            live_neighbors(cells, cells[i].position, offset) as int,
        ),
{
    lemma_resolved_counts(cells, offset, i);
}

/// A tick keeps every cell where it is.
pub proof fn lemma_next_generation_positions(cells: Seq<Cell>, offset: int)
    ensures
        same_positions(next_generation(cells, offset), cells),
        positions_distinct(cells) ==> positions_distinct(next_generation(cells, offset)),
{
    let next = next_generation(cells, offset);
    if positions_distinct(cells) {
        lemma_same_positions_distinct(cells, next);
    }
}

/// Cells at the positions of cells that share none share none.
proof fn lemma_same_positions_distinct(cells: Seq<Cell>, others: Seq<Cell>)
    requires
        positions_distinct(cells),
        same_positions(others, cells),
    ensures
        positions_distinct(others),
{
    assert forall|i: int, j: int| 0 <= i < j < others.len() implies (#[trigger] others[i]).position
        != (#[trigger] others[j]).position by {
        assert(others[i].position == cells[i].position);
        assert(others[j].position == cells[j].position);
    }
}

/// Where no cell but the one at place `a` is alive, a point is live only
/// where that cell is alive.
proof fn lemma_live_count_lone(cells: Seq<Cell>, a: int, x: int, z: int)
    requires
        dead_but(cells, a),
    ensures
        0 <= a < cells.len() ==> live_count(cells, x, z) <= held_count(cells[a], x, z),
        !(0 <= a < cells.len()) ==> live_count(cells, x, z) == 0,
{
    reveal(live_count);
    reveal(held_count);
    if live_at(cells, x, z) {
        let i = choose|i: int| 0 <= i < cells.len() && is_live_at(#[trigger] cells[i], x, z);
        assert(i == a);
    }
}

/// Where no cell but one is alive, no point has more than one live
/// neighbour.
proof fn lemma_lone_neighbors(cells: Seq<Cell>, offset: int, a: int, target: Position)
    requires
        positions_distinct(cells),
        offset > 0,
        dead_but(cells, a),
    ensures
        live_neighbors(cells, target, offset) <= 1,
{
    let x = target.x as int;
    let z = target.z as int;
    let f = |px: int, pz: int| live_count(cells, px, pz);
    lemma_live_neighbors_below_points(cells, target, offset);
    if 0 <= a < cells.len() {
        let g = |px: int, pz: int| held_count(cells[a], px, pz);
        assert forall|px: int, pz: int| #[trigger] f(px, pz) <= g(px, pz) by {
            lemma_live_count_lone(cells, a, px, pz);
        }
        lemma_sum_around_le(f, g, x, z, offset);
        lemma_points_held(cells[a], target, offset);
    } else {
        let g = |px: int, pz: int| 0nat;
        assert forall|px: int, pz: int| #[trigger] f(px, pz) <= g(px, pz) by {
            lemma_live_count_lone(cells, a, px, pz);
        }
        lemma_sum_around_le(f, g, x, z, offset);
    }
}

/// Underpopulation. Where at most one cell is alive, every cell is dead one
/// tick later: the live cell has no live neighbour and dies, and no dead
/// cell has the three live neighbours that a birth takes.
pub proof fn lemma_lone_cell_dies(cells: Seq<Cell>, offset: int, a: int)
    requires
        positions_distinct(cells),
        offset > 0,
        dead_but(cells, a),
    ensures
        all_dead(next_generation(cells, offset)),
{
    let next = next_generation(cells, offset);
    assert forall|i: int| 0 <= i < next.len() implies (#[trigger] next[i]).state
        == CellState::Dead by {
        lemma_next_generation_cell(cells, offset, i);
        lemma_lone_neighbors(cells, offset, a, cells[i].position);
    }
}

/// Where the rule changes no state, it gives no notice.
pub proof fn lemma_no_change_no_notice(cells: Seq<Cell>)
    requires
        forall|i: int| 0 <= i < cells.len() ==> next_of(#[trigger] cells[i]) == cells[i].state,
    ensures
        transition_changes(cells).len() == 0,
    decreases cells.len(),
{
    if cells.len() > 0 {
        let init = cells.drop_last();
        assert forall|i: int| 0 <= i < init.len() implies next_of(#[trigger] init[i])
            == init[i].state by {
            assert(init[i] == cells[i]);
        }
        lemma_no_change_no_notice(init);
        assert(cells.last() == cells[cells.len() - 1]);
    }
}

/// A tick that leaves every state as it was gives no notice.
pub proof fn lemma_still_gives_no_notice(cells: Seq<Cell>, offset: int)
    requires
        same_states(next_generation(cells, offset), cells),
    ensures
        transition_changes(resolved(cells, offset)).len() == 0,
{
    let counted = resolved(cells, offset);
    let next = next_generation(cells, offset);
    assert forall|i: int| 0 <= i < counted.len() implies next_of(#[trigger] counted[i])
        == counted[i].state by {
        assert(next[i].state == cells[i].state);
    }
    lemma_no_change_no_notice(counted);
}

/// A dead grid stays dead: every cell is dead one tick later, and the tick
/// changes no state, so it gives no notice.
pub proof fn lemma_dead_stays_dead(cells: Seq<Cell>, offset: int)
    requires
        positions_distinct(cells),
        offset > 0,
        all_dead(cells),
    ensures
        all_dead(next_generation(cells, offset)),
        transition_changes(resolved(cells, offset)).len() == 0,
{
    lemma_lone_cell_dies(cells, offset, -1);
    let next = next_generation(cells, offset);
    assert forall|i: int| 0 <= i < next.len() implies (#[trigger] next[i]).state
        == cells[i].state by {
        assert(next[i].state == CellState::Dead);
    }
    lemma_still_gives_no_notice(cells, offset);
}

/// A lone live cell dies and stays dead: where at most one cell is alive,
/// every cell is dead after one tick and after every number of ticks that
/// follow.
pub proof fn lemma_lone_cell_stays_dead(cells: Seq<Cell>, offset: int, a: int, ticks: nat)
    requires
        positions_distinct(cells),
        offset > 0,
        dead_but(cells, a),
        ticks >= 1,
    ensures
        all_dead(after_ticks(cells, offset, ticks)),
        same_positions(after_ticks(cells, offset, ticks), cells),
    decreases ticks,
{
    if ticks == 1 {
        assert(after_ticks(cells, offset, 0) == cells);
        lemma_lone_cell_dies(cells, offset, a);
        lemma_next_generation_positions(cells, offset);
    } else {
        let earlier = after_ticks(cells, offset, (ticks - 1) as nat);
        lemma_lone_cell_stays_dead(cells, offset, a, (ticks - 1) as nat);
        lemma_same_positions_distinct(cells, earlier);
        lemma_dead_stays_dead(earlier, offset);
        lemma_next_generation_positions(earlier, offset);
    }
}

/// Whether `(px, pz)` is one of the four points of the block whose corner
/// with the smallest coordinates is `(x, z)`.
pub open spec fn in_block(px: int, pz: int, x: int, z: int, offset: int) -> bool {
    (px == x || px == x + offset) && (pz == z || pz == z + offset)
}

/// Whether the live cells of `cells` are a block and nothing else: each of
/// the four points of the block holds a cell, and a cell is alive where it
/// sits in the block and nowhere else.
pub open spec fn is_block(cells: Seq<Cell>, x: int, z: int, offset: int) -> bool {
    &&& forall|i: int|
        0 <= i < cells.len() ==> ((#[trigger] cells[i]).state == CellState::Alive <==> in_block(
            cells[i].position.x as int,
            cells[i].position.z as int,
            x,
            z,
            offset,
        ))
    &&& forall|px: int, pz: int| #[trigger]
        in_block(px, pz, x, z, offset) ==> exists|i: int|
            0 <= i < cells.len() && (#[trigger] cells[i]).position.x == px && cells[i].position.z
                == pz
}

/// One if `(px, pz)` lies in the block, else nothing.
#[verifier::opaque]
pub open spec fn block_count(px: int, pz: int, x: int, z: int, offset: int) -> nat {
    if in_block(px, pz, x, z, offset) {
        1
    } else {
        0
    }
}

/// The number of the eight points around `(px, pz)` that lie in the block.
pub open spec fn block_points_around(px: int, pz: int, x: int, z: int, offset: int) -> nat {
    sum_around(|qx: int, qz: int| block_count(qx, qz, x, z, offset), px, pz, offset)
}

/// A point of the block has the three others around it; a point outside has
/// two of the block around it at most.
proof fn lemma_block_points_around(px: int, pz: int, x: int, z: int, offset: int)
    requires
        offset > 0,
    ensures
        in_block(px, pz, x, z, offset) ==> block_points_around(px, pz, x, z, offset) == 3,
        !in_block(px, pz, x, z, offset) ==> block_points_around(px, pz, x, z, offset) <= 2,
{
    reveal(block_count);
}

/// Where the live cells are a block, a point is live where it lies in the
/// block and nowhere else.
proof fn lemma_live_count_block(cells: Seq<Cell>, x: int, z: int, offset: int, qx: int, qz: int)
    requires
        is_block(cells, x, z, offset),
    ensures
        live_count(cells, qx, qz) == block_count(qx, qz, x, z, offset),
{
    reveal(live_count);
    reveal(block_count);
    if live_at(cells, qx, qz) {
        let i = choose|i: int| 0 <= i < cells.len() && is_live_at(#[trigger] cells[i], qx, qz);
        assert(cells[i].state == CellState::Alive);
    }
    if in_block(qx, qz, x, z, offset) {
        let i = choose|i: int|
            0 <= i < cells.len() && (#[trigger] cells[i]).position.x == qx && cells[i].position.z
                == qz;
        assert(is_live_at(cells[i], qx, qz));
    }
}

/// The block is a still life: where the live cells are a block and nothing
/// else, a tick changes no state and gives no notice. Each cell of the
/// block has exactly three live neighbours and lives on, and no dead cell
/// has three.
pub proof fn lemma_block_is_still(cells: Seq<Cell>, x: int, z: int, offset: int)
    requires
        positions_distinct(cells),
        offset > 0,
        is_block(cells, x, z, offset),
    ensures
        same_positions(next_generation(cells, offset), cells),
        same_states(next_generation(cells, offset), cells),
        is_block(next_generation(cells, offset), x, z, offset),
        transition_changes(resolved(cells, offset)).len() == 0,
{
    let next = next_generation(cells, offset);
    let f = |qx: int, qz: int| live_count(cells, qx, qz);
    let g = |qx: int, qz: int| block_count(qx, qz, x, z, offset);
    assert forall|qx: int, qz: int| #[trigger] f(qx, qz) == g(qx, qz) by {
        lemma_live_count_block(cells, x, z, offset, qx, qz);
    }
    assert forall|i: int| 0 <= i < cells.len() implies (#[trigger] next[i]).state
        == cells[i].state && next[i].position == cells[i].position by {
        let p = cells[i].position;
        lemma_next_generation_cell(cells, offset, i);
        lemma_live_neighbors_by_position(cells, p, offset);
        lemma_sum_around_eq(f, g, p.x as int, p.z as int, offset);
        lemma_block_points_around(p.x as int, p.z as int, x, z, offset);
    }
    assert forall|px: int, pz: int| #[trigger] in_block(px, pz, x, z, offset) implies exists|
        i: int,
    |
        0 <= i < next.len() && (#[trigger] next[i]).position.x == px && next[i].position.z
            == pz by {
        let i = choose|i: int|
            0 <= i < cells.len() && (#[trigger] cells[i]).position.x == px && cells[i].position.z
                == pz;
        assert(next[i].position == cells[i].position);
    }
    lemma_still_gives_no_notice(cells, offset);
}

/// The block stays for good: after any number of ticks every cell holds the
/// state it held at first.
pub proof fn lemma_block_stays(cells: Seq<Cell>, x: int, z: int, offset: int, ticks: nat)
    requires
        positions_distinct(cells),
        offset > 0,
        is_block(cells, x, z, offset),
    ensures
        same_positions(after_ticks(cells, offset, ticks), cells),
        same_states(after_ticks(cells, offset, ticks), cells),
        is_block(after_ticks(cells, offset, ticks), x, z, offset),
    decreases ticks,
{
    if ticks > 0 {
        let earlier = after_ticks(cells, offset, (ticks - 1) as nat);
        lemma_block_stays(cells, x, z, offset, (ticks - 1) as nat);
        lemma_same_positions_distinct(cells, earlier);
        lemma_block_is_still(earlier, x, z, offset);
    }
}

} // verus!
