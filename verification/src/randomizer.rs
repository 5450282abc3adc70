//! Drawing states at random: each cell gets an even chance of either state,
//! on its own and whatever it held before.

use vstd::prelude::*;
use rand::rngs::ThreadRng;
use crate::cell::CellState;

verus! {

/// The generator of `rand` that each thread keeps for itself. Nothing is
/// known of what is inside.
#[verifier::external_type_specification]
#[verifier::external_body]
pub struct ExThreadRng(rand::rngs::ThreadRng);

/// `rand::thread_rng` hands out the generator of the calling thread. Nothing
/// is claimed of it. The first call in a thread seeds the generator from
/// the operating system, and panics if the operating system gives no seed.
pub assume_specification[ rand::thread_rng ]() -> (rng: ThreadRng);

/// Calls `rand::seq::SliceRandom::choose` on `choices`.
///
/// Trusted, not proved: the call gives nothing for an empty slice, and else
/// one of the items of the slice. Which one is left open: it depends on
/// chance. The generator takes a new seed from the operating system from
/// time to time and panics if none is given; nothing that is handed to the
/// library brings that about.
#[verifier::external_body]
pub(crate) fn pick_state(choices: &[CellState], rng: &mut ThreadRng) -> (picked: Option<CellState>)
    ensures
        match picked {
            Some(state) => choices@.contains(state),
            None => choices@.len() == 0,
        },
{
    rand::seq::SliceRandom::choose(choices, rng).copied()
}

/// Draws one state, either with the same chance.
fn draw_state(rng: &mut ThreadRng) -> (state: CellState) {
    let choices = [CellState::Alive, CellState::Dead];
    pick_state(choices.as_slice(), rng).unwrap()
}

/// Draws `n` states from the generator of the calling thread, each on its
/// own.
pub(crate) fn random_states(n: usize) -> (states: Vec<CellState>)
    ensures
        states@.len() == n,
{
    let mut rng = rand::thread_rng();
    let mut states: Vec<CellState> = Vec::new();
    let mut i: usize = 0;
    while i < n
        invariant
            i <= n,
            states@.len() == i,
        decreases n - i,
    {
        states.push(draw_state(&mut rng));
        i += 1;
    }
    states
}

} // verus!
