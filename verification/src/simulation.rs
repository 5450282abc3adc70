//! The simulation clock and the queue of randomize triggers: what runs, and
//! in which order, when the host reports that time has passed or that a
//! reset was asked for.

use vstd::prelude::*;
use vstd::arithmetic::div_mod::{
    lemma_fundamental_div_mod,
    lemma_fundamental_div_mod_converse,
};
use crate::cell::{notices, same_counts, same_positions, Cell, StateChange};
use crate::generation::{after_ticks, next_generation, tick_changes};
use crate::grid::{all_fresh, Grid};
use crate::lattice::{ConfigError, Lattice};
use crate::neighbors::resolved;
use crate::rules::transition_changes;

verus! {

/// The time between two ticks, in milliseconds, unless the host sets
/// another.
pub const DEFAULT_TICK_MILLIS: u64 = 500;

/// A request to give every cell a new random state.
#[derive(Clone, Copy, Debug, PartialEq, Eq, Structural)]
pub struct RandomCellStates;

/// The two states of the clock. It starts idle, runs once the host has set
/// up, and never stops.
#[derive(Clone, Copy, Debug, PartialEq, Eq, Structural)]
pub enum ClockState {
    Idle,
    Running,
}

/// A grid with its clock and the randomize triggers that wait to be served.
#[derive(Clone, Debug)]
pub struct Simulation {
    grid: Grid,
    clock: ClockState,
    tick_millis: u64,
    waited_millis: u64,
    triggers: Vec<RandomCellStates>,
}

/// The number of ticks that are due once `elapsed` more milliseconds have
/// passed, where `waited` milliseconds had passed since the last tick and
/// ticks are `period` milliseconds apart.
pub open spec fn ticks_due(waited: int, elapsed: int, period: int) -> int {
    (waited + elapsed) / period
}

/// The time that has passed since the last of the ticks that are due.
pub open spec fn time_left(waited: int, elapsed: int, period: int) -> int {
    (waited + elapsed) % period
}

/// Splits the time that has passed into whole periods and a rest.
fn split_time(waited: u64, elapsed: u64, period: u64) -> (r: (u64, u64))
    requires
        period > 0,
        waited < period,
    ensures
        r.0 == ticks_due(waited as int, elapsed as int, period as int),
        r.1 == time_left(waited as int, elapsed as int, period as int),
        r.1 < period,
{
    let whole = elapsed / period;
    let rest = elapsed % period;
    proof {
        lemma_fundamental_div_mod(elapsed as int, period as int);
    }
    if rest >= period - waited {
        let left = rest - (period - waited);
        proof {
            assert(period * whole + period == (whole + 1) * period) by (nonlinear_arith);
            assert(whole + 1 <= u64::MAX) by (nonlinear_arith)
                requires
                    elapsed == period * whole + rest,
                    rest >= 1,
                    rest < period,
                    elapsed <= u64::MAX,
                    0 <= whole,
            ;
            lemma_fundamental_div_mod_converse(
                waited + elapsed,
                period as int,
                whole + 1,
                left as int,
            );
        }
        (whole + 1, left)
    } else {
        proof {
            assert(period * whole == whole * period) by (nonlinear_arith);
            lemma_fundamental_div_mod_converse(
                waited + elapsed,
                period as int,
                whole as int,
                waited + rest,
            );
        }
        (whole, waited + rest)
    }
}

/// The notices of round `r`, where `repaint` holds rounds of `n` notices
/// each.
pub open spec fn round_of(repaint: Seq<StateChange>, n: int, r: int) -> Seq<StateChange> {
    repaint.subrange(r * n, r * n + n)
}

/// Whether `notes` holds one notice for each cell of `cells`, in order, each
/// for the position of its cell.
pub open spec fn covers(notes: Seq<StateChange>, cells: Seq<Cell>) -> bool {
    &&& notes.len() == cells.len()
    &&& forall|i: int| 0 <= i < notes.len() ==> (#[trigger] notes[i]).position == cells[i].position
}

/// What serving `rounds` triggers does to the cells `before`: `after` holds
/// the same cells at the same positions with the same neighbour counts, and
/// `repaint` holds a full round of notices for each trigger, the last round
/// telling the states of `after`. With no trigger nothing changes.
pub open spec fn drained(
    before: Seq<Cell>,
    rounds: int,
    after: Seq<Cell>,
    repaint: Seq<StateChange>,
) -> bool {
    let n = before.len() as int;
    &&& same_positions(after, before)
    &&& same_counts(after, before)
    &&& rounds == 0 ==> after == before
    &&& repaint.len() == rounds * n
    &&& forall|r: int| 0 <= r < rounds ==> covers(#[trigger] round_of(repaint, n, r), before)
    &&& rounds > 0 ==> round_of(repaint, n, rounds - 1) == notices(after)
}

impl Simulation {
    /// The grid.
    pub closed spec fn spec_grid(&self) -> Grid {
        self.grid
    }

    /// The state of the clock.
    pub closed spec fn spec_clock(&self) -> ClockState {
        self.clock
    }

    /// The time between two ticks, in milliseconds.
    pub closed spec fn spec_tick_millis(&self) -> u64 {
        self.tick_millis
    }

    /// The time that has passed since the last tick, as far as the host has
    /// reported it, in milliseconds.
    pub closed spec fn spec_waited_millis(&self) -> u64 {
        self.waited_millis
    }

    /// The number of randomize triggers that wait to be served.
    pub closed spec fn spec_pending(&self) -> nat {
        self.triggers@.len()
    }

    /// What holds of every simulation: its grid is well formed, its ticks
    /// are a positive time apart, and less than that time has passed since
    /// the last tick.
    pub open spec fn wf(&self) -> bool {
        &&& self.spec_grid().wf()
        &&& 0 <= self.spec_waited_millis() < self.spec_tick_millis()
    }

    /// Whether `self` has the clock state, the tick period and the layout of
    /// `before`.
    pub open spec fn same_clock(&self, before: &Simulation) -> bool {
        &&& self.spec_clock() == before.spec_clock()
        &&& self.spec_tick_millis() == before.spec_tick_millis()
        &&& self.spec_grid().spec_lattice() == before.spec_grid().spec_lattice()
    }

    /// Whether `self` differs from `before` in its clock at most: the grid
    /// and the waiting triggers are the same.
    pub open spec fn same_cells(&self, before: &Simulation) -> bool {
        &&& self.spec_grid() == before.spec_grid()
        &&& self.spec_pending() == before.spec_pending()
    }

    /// Wraps a grid: the clock is idle, no trigger waits, and ticks are
    /// `DEFAULT_TICK_MILLIS` apart.
    pub fn new(grid: Grid) -> (sim: Simulation)
        requires
            grid.wf(),
        ensures
            sim.wf(),
            sim.spec_grid() == grid,
            sim.spec_clock() == ClockState::Idle,
            sim.spec_tick_millis() == DEFAULT_TICK_MILLIS,
            sim.spec_waited_millis() == 0,
            sim.spec_pending() == 0,
    {
        Simulation {
            grid,
            clock: ClockState::Idle,
            tick_millis: DEFAULT_TICK_MILLIS,
            waited_millis: 0,
            triggers: Vec::new(),
        }
    }

    /// Builds the grid as `Grid::new` does and queues one randomize trigger,
    /// so that the first thing served gives the fresh cells random states.
    /// The clock is idle until `start` is called.
    pub fn setup_cells(canvas_size: i32, cell_size: i32, cell_gap: i32) -> (r: Result<
        Simulation,
        ConfigError,
    >)
        ensures
            match r {
                Ok(sim) => {
                    &&& Lattice::spec_new(canvas_size, cell_size, cell_gap) == Ok::<
                        Lattice,
                        ConfigError,
                    >(sim.spec_grid().spec_lattice())
                    &&& sim.wf()
                    &&& all_fresh(sim.spec_grid()@)
                    &&& sim.spec_clock() == ClockState::Idle
                    &&& sim.spec_tick_millis() == DEFAULT_TICK_MILLIS
                    &&& sim.spec_waited_millis() == 0
                    &&& sim.spec_pending() == 1
                },
                Err(e) => Lattice::spec_new(canvas_size, cell_size, cell_gap) == Err::<
                    Lattice,
                    ConfigError,
                >(e),
            },
    {
        match Grid::new(canvas_size, cell_size, cell_gap) {
            Ok(grid) => {
                let mut sim = Simulation::new(grid);
                sim.triggers.push(RandomCellStates);
                Ok(sim)
            },
            Err(e) => Err(e),
        }
    }

    /// Sets the time between two ticks, and counts the time to the next tick
    /// anew. Zero is refused, and nothing changes.
    pub fn set_tick_millis(&mut self, millis: u64) -> (r: Result<(), ConfigError>)
        requires
            old(self).wf(),
        ensures
            final(self).wf(),
            final(self).same_cells(old(self)),
            final(self).spec_clock() == old(self).spec_clock(),
            millis > 0 ==> {
                &&& r == Ok::<(), ConfigError>(())
                &&& final(self).spec_tick_millis() == millis
                &&& final(self).spec_waited_millis() == 0
            },
            millis == 0 ==> {
                &&& r == Err::<(), ConfigError>(ConfigError::TickPeriod)
                &&& final(self).spec_tick_millis() == old(self).spec_tick_millis()
                &&& final(self).spec_waited_millis() == old(self).spec_waited_millis()
            },
    {
        if millis == 0 {
            Err(ConfigError::TickPeriod)
        } else {
            self.tick_millis = millis;
            self.waited_millis = 0;
            Ok(())
        }
    }

    /// The host has set up: the clock runs from now on. A running clock
    /// keeps running.
    pub fn start(&mut self)
        ensures
            old(self).wf() ==> final(self).wf(),
            final(self).spec_clock() == ClockState::Running,
            final(self).same_cells(old(self)),
            final(self).spec_tick_millis() == old(self).spec_tick_millis(),
            final(self).spec_waited_millis() == old(self).spec_waited_millis(),
    {
        self.clock = ClockState::Running;
    }

    /// Takes note of what the user asked for: where `regenerate` is set, one
    /// more randomize trigger waits to be served. Nothing else changes.
    pub fn input_actions(&mut self, regenerate: bool)
        ensures
            old(self).wf() ==> final(self).wf(),
            final(self).spec_grid() == old(self).spec_grid(),
            final(self).spec_clock() == old(self).spec_clock(),
            final(self).spec_tick_millis() == old(self).spec_tick_millis(),
            final(self).spec_waited_millis() == old(self).spec_waited_millis(),
            final(self).spec_pending() == old(self).spec_pending() + if regenerate {
                1nat
            } else {
                0nat
            },
    {
        if regenerate {
            self.triggers.push(RandomCellStates);
        }
    }

    /// Serves every waiting randomize trigger, oldest first: each gives every
    /// cell a new random state and repaints the whole grid. The result holds
    /// the notices of all rounds in order, one full round for each trigger.
    /// No trigger waits afterwards.
    pub fn random_cell_states(&mut self) -> (repaint: Vec<StateChange>)
        requires
            old(self).wf(),
        ensures
            final(self).wf(),
            final(self).same_clock(old(self)),
            final(self).spec_waited_millis() == old(self).spec_waited_millis(),
            final(self).spec_pending() == 0,
            drained(
                old(self).spec_grid()@,
                old(self).spec_pending() as int,
                final(self).spec_grid()@,
                repaint@,
            ),
    {
        let rounds = self.triggers.len();
        let ghost before = self.grid@;
        let ghost n = before.len() as int;
        let mut repaint: Vec<StateChange> = Vec::new();
        let mut round: usize = 0;
        proof {
            assert(0 * n == 0) by (nonlinear_arith);
        }
        while round < rounds
            invariant
                round <= rounds,
                rounds == self.triggers@.len(),
                n == before.len(),
                self.grid.wf(),
                self.grid.spec_lattice() == old(self).grid.spec_lattice(),
                self.clock == old(self).clock,
                self.tick_millis == old(self).tick_millis,
                self.waited_millis == old(self).waited_millis,
                drained(before, round as int, self.grid@, repaint@),
            decreases rounds - round,
        {
            let ghost earlier = repaint@;
            let mut notes = self.grid.randomize();
            let ghost round_notes = notes@;
            repaint.append(&mut notes);
            proof {
                lemma_next_round(earlier, round_notes, n, round as int);
                assert forall|r: int| 0 <= r < round + 1 implies covers(
                    #[trigger] round_of(repaint@, n, r),
                    before,
                ) by {
                    if r < round {
                        assert(covers(round_of(earlier, n, r), before));
                    }
                }
            }
            round += 1;
        }
        self.triggers.clear();
        repaint
    }

    /// One tick event. While the clock is idle nothing happens. Once it
    /// runs, every waiting randomize trigger is served first, as
    /// `random_cell_states` does, and the grid goes through one tick. The
    /// result holds the notices of the randomize rounds, followed by one
    /// notice for each cell whose state the tick changed.
    pub fn tick(&mut self) -> (notes: Vec<StateChange>)
        requires
            old(self).wf(),
        ensures
            final(self).wf(),
            final(self).same_clock(old(self)),
            final(self).spec_waited_millis() == old(self).spec_waited_millis(),
            old(self).spec_clock() == ClockState::Idle ==> {
                &&& final(self).same_cells(old(self))
                &&& notes@.len() == 0
            },
            old(self).spec_clock() == ClockState::Running ==> {
                &&& final(self).spec_pending() == 0
                &&& exists|mid: Seq<Cell>, repaint: Seq<StateChange>|
                    #![trigger drained(old(self).spec_grid()@, old(self).spec_pending() as int, mid, repaint)]
                    {
                        &&& drained(
                            old(self).spec_grid()@,
                            old(self).spec_pending() as int,
                            mid,
                            repaint,
                        )
                        &&& final(self).spec_grid()@ == next_generation(
                            mid,
                            old(self).spec_grid().spec_lattice().spec_step(),
                        )
                        &&& notes@ == repaint + transition_changes(
                            resolved(mid, old(self).spec_grid().spec_lattice().spec_step()),
                        )
                    }
            },
    {
        match self.clock {
            ClockState::Idle => Vec::new(),
            ClockState::Running => {
                let mut notes = self.random_cell_states();
                let ghost mid = self.grid@;
                let ghost repaint = notes@;
                let mut changes = self.grid.tick();
                notes.append(&mut changes);
                proof {
                    assert(drained(
                        old(self).spec_grid()@,
                        old(self).spec_pending() as int,
                        mid,
                        repaint,
                    ));
                }
                notes
            },
        }
    }

    /// The host reports that `elapsed_millis` milliseconds have passed. While
    /// the clock is idle nothing happens, and the time is not counted. Once
    /// it runs, the time adds to what had passed since the last tick, and one
    /// tick runs for each whole period in the sum, one after the other; what
    /// is left over waits for the next report. Before the first of these
    /// ticks every waiting randomize trigger is served, as
    /// `random_cell_states` does. Where no tick is due, grid and triggers
    /// stay as they are.
    ///
    /// The result holds the notices of the randomize rounds, followed by the
    /// notices of the ticks in order.
    pub fn advance(&mut self, elapsed_millis: u64) -> (notes: Vec<StateChange>)
        requires
            old(self).wf(),
        ensures
            final(self).wf(),
            final(self).same_clock(old(self)),
            old(self).spec_clock() == ClockState::Idle ==> {
                &&& final(self).same_cells(old(self))
                &&& final(self).spec_waited_millis() == old(self).spec_waited_millis()
                &&& notes@.len() == 0
            },
            old(self).spec_clock() == ClockState::Running ==> {
                let due = ticks_due(
                    old(self).spec_waited_millis() as int,
                    elapsed_millis as int,
                    old(self).spec_tick_millis() as int,
                );
                &&& final(self).spec_waited_millis() == time_left(
                    old(self).spec_waited_millis() as int,
                    elapsed_millis as int,
                    old(self).spec_tick_millis() as int,
                )
                &&& due >= 0
                &&& due == 0 ==> final(self).same_cells(old(self)) && notes@.len() == 0
                &&& due > 0 ==> final(self).spec_pending() == 0 && exists|
                    mid: Seq<Cell>,
                    repaint: Seq<StateChange>,
                |
                    #![trigger drained(old(self).spec_grid()@, old(self).spec_pending() as int, mid, repaint)]
                    {
                        &&& drained(
                            old(self).spec_grid()@,
                            old(self).spec_pending() as int,
                            mid,
                            repaint,
                        )
                        &&& final(self).spec_grid()@ == after_ticks(
                            mid,
                            old(self).spec_grid().spec_lattice().spec_step(),
                            due as nat,
                        )
                        &&& notes@ == repaint + tick_changes(
                            mid,
                            old(self).spec_grid().spec_lattice().spec_step(),
                            due as nat,
                        )
                    }
            },
    {
        match self.clock {
            ClockState::Idle => Vec::new(),
            ClockState::Running => {
                let (due, left) = split_time(self.waited_millis, elapsed_millis, self.tick_millis);
                self.waited_millis = left;
                if due == 0 {
                    return Vec::new();
                }
                let mut notes = self.random_cell_states();
                let ghost mid = self.grid@;
                let ghost repaint = notes@;
                let ghost step = self.grid.spec_lattice().spec_step();
                let mut done: u64 = 0;
                proof {
                    assert(notes@ =~= repaint + tick_changes(mid, step, 0));
                }
                while done < due
                    invariant
                        done <= due,
                        self.grid.wf(),
                        self.grid.spec_lattice() == old(self).grid.spec_lattice(),
                        step == self.grid.spec_lattice().spec_step(),
                        self.clock == old(self).clock,
                        self.tick_millis == old(self).tick_millis,
                        self.waited_millis == left,
                        self.triggers@.len() == 0,
                        self.grid@ == after_ticks(mid, step, done as nat),
                        notes@ == repaint + tick_changes(mid, step, done as nat),
                    decreases due - done,
                {
                    let ghost earlier = notes@;
                    let ghost cells = self.grid@;
                    let mut changes = self.grid.tick();
                    notes.append(&mut changes);
                    proof {
                        assert(notes@ =~= repaint + tick_changes(mid, step, (done + 1) as nat));
                    }
                    done += 1;
                }
                proof {
                    assert(drained(
                        old(self).spec_grid()@,
                        old(self).spec_pending() as int,
                        mid,
                        repaint,
                    ));
                }
                notes
            },
        }
    }

    /// The grid, to read.
    pub fn grid(&self) -> (grid: &Grid)
        ensures
            *grid == self.spec_grid(),
    {
        &self.grid
    }

    /// The state of the clock.
    #[verifier::when_used_as_spec(spec_clock)]
    pub fn clock(&self) -> (clock: ClockState)
        ensures
            clock == self.spec_clock(),
    {
        self.clock
    }

    /// The time between two ticks, in milliseconds.
    #[verifier::when_used_as_spec(spec_tick_millis)]
    pub fn tick_millis(&self) -> (millis: u64)
        ensures
            millis == self.spec_tick_millis(),
    {
        self.tick_millis
    }

    /// The time that has passed since the last tick, as far as the host has
    /// reported it, in milliseconds.
    #[verifier::when_used_as_spec(spec_waited_millis)]
    pub fn waited_millis(&self) -> (millis: u64)
        ensures
            millis == self.spec_waited_millis(),
    {
        self.waited_millis
    }

    /// The number of randomize triggers that wait to be served.
    pub fn pending(&self) -> (n: usize)
        ensures
            n == self.spec_pending(),
    {
        self.triggers.len()
    }
}

/// Adding one more round of `n` notices behind `round` rounds: the rounds
/// before stay what they were, and the new round is the last.
proof fn lemma_next_round(earlier: Seq<StateChange>, notes: Seq<StateChange>, n: int, round: int)
    requires
        0 <= round,
        0 <= n,
        earlier.len() == round * n,
        notes.len() == n,
    ensures
        (earlier + notes).len() == (round + 1) * n,
        round_of(earlier + notes, n, round) == notes,
        forall|r: int|
            0 <= r < round ==> #[trigger] round_of(earlier + notes, n, r) == round_of(earlier, n, r),
{
    let all = earlier + notes;
    assert((round + 1) * n == round * n + n) by (nonlinear_arith);
    assert(round_of(all, n, round) =~= notes);
    assert forall|r: int| 0 <= r < round implies #[trigger] round_of(all, n, r) == round_of(
        earlier,
        n,
        r,
    ) by {
        assert(0 <= r * n && r * n + n <= round * n) by (nonlinear_arith)
            requires
                0 <= r <= round - 1,
                0 <= n,
        ;
        assert(round_of(all, n, r) =~= round_of(earlier, n, r));
    }
}

} // verus!
