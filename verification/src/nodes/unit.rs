//! The state a unit node of the map keeps: the integrity it shows, its
//! hexagon, and whether it is outlined as selected.
use vstd::prelude::*;
use crate::components::cell::Cell;

verus! {

/// A unit node of the map.
#[derive(Clone, Copy, Debug, PartialEq, Eq, Structural)]
pub struct UnitNode {
    pub integrity: i32,
    pub cell: Cell,
    pub selected: bool,
}

impl UnitNode {
    /// A node with integrity 0 on the origin, not selected.
    pub fn new() -> (node: UnitNode)
        ensures
            node == (UnitNode { integrity: 0, cell: Cell { q: 0, r: 0, s: 0 }, selected: false }),
    {
        UnitNode { integrity: 0, cell: Cell::zero(), selected: false }
    }

    /// Sets the integrity the node shows.
    pub fn set_integrity(&mut self, value: i32)
        ensures
            *final(self) == (UnitNode { integrity: value, ..*old(self) }),
    {
        self.integrity = value;
    }

    pub fn get_integrity(&self) -> (integrity: i32)
        ensures
            integrity == self.integrity,
    {
        self.integrity
    }

    /// Sets the hexagon of the node.
    pub fn set_cell(&mut self, value: Cell)
        ensures
            *final(self) == (UnitNode { cell: value, ..*old(self) }),
    {
        self.cell = value;
    }

    pub fn get_cell(&self) -> (cell: Cell)
        ensures
            cell == self.cell,
    {
        self.cell
    }

    /// Sets whether the node is outlined as selected.
    pub fn set_selected(&mut self, value: bool)
        ensures
            *final(self) == (UnitNode { selected: value, ..*old(self) }),
    {
        self.selected = value;
    }

    pub fn get_selected(&self) -> (selected: bool)
        ensures
            selected == self.selected,
    {
        self.selected
    }
}

} // verus!
