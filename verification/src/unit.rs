//! The unit node of the scene that reads its entity by index: it shows the
//! integrity of the unit and outlines it while it is selected.
use vstd::prelude::*;
use crate::gameworld::GameWorld;
use crate::world::{Entity, World, WorldState, alive, components_of};

verus! {

/// A unit node of the scene.
#[derive(Clone, Copy, Debug, PartialEq, Eq, Structural)]
pub struct Unit {}

/// What a unit node shows: the integrity of its unit, if the entity has one,
/// and whether the outline is visible.
#[derive(Clone, Copy, Debug, PartialEq, Eq, Structural)]
pub struct UnitView {
    pub integrity: Option<i32>,
    pub outlined: bool,
}

/// What the node of the entity with index `entity_index` shows; `None` when
/// no such entity lives.
pub open spec fn spec_unit_view(world: WorldState, entity_index: u32) -> Option<UnitView> {
    let entity = Entity { index: entity_index };
    if alive(world, entity) {
        let components = components_of(world, entity);
        Some(
            UnitView {
                integrity: match components.unit {
                    Some(unit) => Some(unit.integrity),
                    None => None,
                },
                outlined: components.selected,
            },
        )
    } else {
        None
    }
}

impl Unit {
    pub fn new() -> (unit: Unit)
        ensures
            unit == (Unit {}),
    {
        Unit {}
    }

    /// What the node of the entity with index `entity_index` shows.
    pub fn view(world: &World, entity_index: u32) -> (view: Option<UnitView>)
        requires
            world.wf(),
        ensures
            view == spec_unit_view(world@, entity_index),
    {
        let entity = match GameWorld::find_entity(entity_index, world) {
            None => {
                return None;
            },
            Some(entity) => entity,
        };
        let components = world.components(entity).unwrap();
        let integrity = match components.unit {
            Some(unit) => Some(unit.integrity),
            None => None,
        };
        Some(UnitView { integrity, outlined: components.selected })
    }
}

} // verus!
