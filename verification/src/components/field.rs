use vstd::prelude::*;
use crate::components::cell::Cell;

verus! {

/// A field of the map, and whether the selected unit can move onto it or attack it.
#[derive(Clone, Copy, Debug, PartialEq, Eq, Structural)]
pub struct Field {
    pub location: Cell,
    pub moveable: bool,
    pub attackable: bool,
}

impl Field {
    /// A field at `location` that can be neither moved onto nor attacked.
    pub fn new(location: Cell) -> (field: Field)
        ensures
            field == (Field { location, moveable: false, attackable: false }),
    {
        Field { location, moveable: false, attackable: false }
    }
}

} // verus!
