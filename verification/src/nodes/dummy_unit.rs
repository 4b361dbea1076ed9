use vstd::prelude::*;
use crate::systems::{entity_of_instance, find_entity_of_instance, has_instance};
use crate::world::{Entity, World, WorldState, alive, components_of};

verus! {

/// What the scene shows of a unit: its integrity, whether it is outlined as
/// selected, and the player whose colour it wears.
#[derive(Clone, Copy, Debug, PartialEq, Eq, Structural)]
pub struct UnitDisplay {
    pub integrity: Option<i32>,
    pub outlined: bool,
    pub player: Option<usize>,
}

/// A unit node of the scene.
#[derive(Clone, Copy, Debug, PartialEq, Eq, Structural)]
pub struct DummyUnit {}

/// What the unit node with instance id `instance_id` shows when `selected` is
/// the selected entity; `None` when no entity has that node.
pub open spec fn spec_unit_display(world: WorldState, selected: Option<Entity>, instance_id: i64) -> Option<
    UnitDisplay,
> {
    match entity_of_instance(world, instance_id) {
        None => None,
        Some(entity) => {
            let components = components_of(world, entity);
            Some(
                UnitDisplay {
                    integrity: match components.unit {
                        Some(unit) => Some(unit.integrity),
                        None => None,
                    },
                    outlined: match selected {
                        Some(s) => alive(world, s) && has_instance(world, s, instance_id),
                        None => false,
                    },
                    player: components.player,
                },
            )
        },
    }
}

impl DummyUnit {
    pub fn new() -> (unit: DummyUnit)
        ensures
            unit == (DummyUnit {}),
    {
        DummyUnit {}
    }

    /// What the unit node with instance id `instance_id` shows.
    pub fn unit_display(world: &World, selected: Option<Entity>, instance_id: i64) -> (display: Option<
        UnitDisplay,
    >)
        requires
            world.wf(),
        ensures
            display == spec_unit_display(world@, selected, instance_id),
    {
        let entity = match find_entity_of_instance(instance_id, world) {
            None => {
                return None;
            },
            Some(entity) => entity,
        };
        let components = world.components(entity).unwrap();
        let integrity = match components.unit {
            Some(unit) => Some(unit.integrity),
            None => None,
        };
        let outlined = match selected {
            Some(selected_entity) => match world.components(selected_entity) {
                Some(selected_components) => match selected_components.node {
                    Some(node) => node.id == instance_id,
                    None => false,
                },
                None => false,
            },
            None => false,
        };
        Some(UnitDisplay { integrity, outlined, player: components.player })
    }
}

} // verus!
