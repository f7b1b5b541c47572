//! The per-step input snapshot handed to the simulation.

use vstd::prelude::*;

verus! {

/// One snapshot of the input device per simulation step: four directional
/// held states and the raw held state of the placement trigger. The core
/// itself derives the press-then-release edge of the trigger by comparing
/// consecutive snapshots.
#[derive(Clone, Copy, PartialEq, Eq, Structural)]
pub struct InputState {
    pub up: bool,
    pub down: bool,
    pub left: bool,
    pub right: bool,
    pub trigger_held: bool,
}

impl InputState {
    /// A snapshot with nothing held.
    pub fn idle() -> (r: InputState)
        ensures
            r == (InputState { up: false, down: false, left: false, right: false, trigger_held: false }),
    {
        InputState { up: false, down: false, left: false, right: false, trigger_held: false }
    }
}

/// The placement trigger fires on the press-to-release transition: it was
/// held at the previous step and is no longer held now.
pub open spec fn release_edge(prev_held: bool, held_now: bool) -> bool {
    prev_held && !held_now
}

} // verus!
