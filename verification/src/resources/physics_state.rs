use vstd::prelude::*;

verus! {

/// The physics space of the map, named by its instance id.
#[derive(Clone, Copy, Debug, PartialEq, Eq, Structural)]
pub struct PhysicsState {
    pub id: i64,
}

impl PhysicsState {
    pub fn new(id: i64) -> (state: PhysicsState)
        ensures
            state.id == id,
    {
        PhysicsState { id }
    }
}

} // verus!
