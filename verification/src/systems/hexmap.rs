//! What the map systems pass around, and what a press of the select button
//! announces.
use vstd::prelude::*;
use crate::components::cell::Cell;
use crate::game_state::Phase;

verus! {

/// The radius of the map.
#[derive(Clone, Copy, Debug, PartialEq, Eq, Structural)]
pub struct MapRadius(pub i32);

/// Whether the map needs to be drawn again.
#[derive(Clone, Copy, Debug, PartialEq, Eq, Structural)]
pub struct UpdateMap(pub bool);

/// The hexagon that was selected, or `None` when the selection was cleared.
#[derive(Clone, Copy, Debug, PartialEq, Eq, Structural)]
pub struct CellSelected {
    pub cell: Option<Cell>,
}

/// Whether the select button acts on the cursor in `phase`: only while
/// waiting for a selection or with a hexagon selected.
pub fn reacts_to_select(phase: &Phase) -> (reacts: bool)
    ensures
        reacts == (*phase is Waiting || *phase is Selected),
{
    match phase {
        Phase::Waiting => true,
        Phase::Selected(_, _) => true,
        _ => false,
    }
}

/// What is announced after the select button moved the game to `phase`:
/// a cleared selection when waiting, the selected hexagon when one is
/// selected, nothing otherwise.
pub fn selection_event(phase: &Phase) -> (event: Option<CellSelected>)
    ensures
        event == (match *phase {
            Phase::Waiting => Some(CellSelected { cell: None }),
            Phase::Selected(cell, _) => Some(CellSelected { cell: Some(cell) }),
            _ => None::<CellSelected>,
        }),
{
    match phase {
        Phase::Waiting => Some(CellSelected { cell: None }),
        Phase::Selected(cell, _) => Some(CellSelected { cell: Some(*cell) }),
        _ => None,
    }
}

} // verus!
