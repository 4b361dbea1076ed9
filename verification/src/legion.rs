//! Queries on the components of single entities.
use vstd::prelude::*;
use crate::world::{Components, Entity, World, alive, components_of};

verus! {

/// The kinds of component an entity can carry.
#[derive(Clone, Copy, Debug, PartialEq, Eq, Structural)]
pub enum ComponentKind {
    Cell,
    Unit,
    Player,
    Node,
}

/// Whether `components` holds a component of `kind`.
pub open spec fn carries(components: Components, kind: ComponentKind) -> bool {
    match kind {
        ComponentKind::Cell => components.cell is Some,
        ComponentKind::Unit => components.unit is Some,
        ComponentKind::Player => components.player is Some,
        ComponentKind::Node => components.node is Some,
    }
}

/// Whether `entity` lives in `world` and carries a component of `kind`.
pub fn entity_has_component(world: &World, entity: &Entity, kind: ComponentKind) -> (result: bool)
    requires
        world.wf(),
    ensures
        result == (alive(world@, *entity) && carries(components_of(world@, *entity), kind)),
{
    let entry = match world.components(*entity) {
        Some(entry) => entry,
        None => {
            return false;
        },
    };
    match kind {
        ComponentKind::Cell => entry.cell.is_some(),
        ComponentKind::Unit => entry.unit.is_some(),
        ComponentKind::Player => entry.player.is_some(),
        ComponentKind::Node => entry.node.is_some(),
    }
}

} // verus!
