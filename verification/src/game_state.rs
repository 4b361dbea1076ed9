//! The phases a game goes through, as far as the rules read them.
use vstd::prelude::*;
use crate::components::cell::Cell;

verus! {

/// The phase of a game: starting up, a new round, waiting for a selection,
/// a hexagon selected (with the index of the entity on it, if any), an
/// attack between two entities, or an entity on the move.
#[derive(Clone, Copy, Debug, PartialEq, Eq, Structural)]
pub enum Phase {
    Startup,
    NewRound,
    Waiting,
    Selected(Cell, Option<u32>),
    Attacking(u32, u32),
    Moving(u32),
}

} // verus!
