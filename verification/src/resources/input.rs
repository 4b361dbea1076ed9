use vstd::prelude::*;
use crate::components::cell::Cell;

verus! {

/// The buttons of the map.
#[derive(Clone, Copy, Debug, PartialEq, Eq, Structural)]
pub enum Button {
    Select,
    Cancel,
}

/// The cursor moved onto `cell`.
#[derive(Clone, Copy, Debug, PartialEq, Eq, Structural)]
pub struct CursorMoved {
    pub cell: Cell,
}

/// `button` was pressed.
#[derive(Clone, Copy, Debug, PartialEq, Eq, Structural)]
pub struct ButtonPressed {
    pub button: Button,
}

} // verus!
