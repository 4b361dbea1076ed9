use vstd::prelude::*;
use crate::components::cell::{Cell, cells_distance_fits, spec_distance};
use crate::components::unit::{CanMove, spec_can_move};
use crate::gameworld::{GameWorld, is_search_result};
use crate::systems::{entity_of_instance, find_entity_of_instance};
use crate::world::{
    Entity, World, WorldState, alive, components_of, entities_at, has_unit_at,
};

verus! {

/// A field node of the map: whether the mouse is over it.
#[derive(Clone, Copy, Debug, PartialEq, Eq, Structural)]
pub struct HexField {
    pub hovered: bool,
}

/// Whether the selected unit may see a target hexagon for an attack.
#[derive(Clone, Debug, PartialEq, Eq)]
pub enum AttackVisibility {
    /// The target can not be attacked.
    Hidden,
    /// Rays between the hexagons decide; the listed field nodes do not block them.
    NeedsRays(Vec<i64>),
}

/// Whether `entity` lives with a unit, a hexagon and a player.
pub open spec fn is_player_unit(world: WorldState, entity: Entity) -> bool {
    &&& alive(world, entity)
    &&& components_of(world, entity).unit is Some
    &&& components_of(world, entity).cell is Some
    &&& components_of(world, entity).player is Some
}

/// The instance ids of the field nodes of `entities`, in order.
pub open spec fn field_nodes(world: WorldState, entities: Seq<Entity>) -> Seq<i64>
    decreases entities.len(),
{
    if entities.len() == 0 {
        Seq::empty()
    } else {
        let rest = field_nodes(world, entities.drop_last());
        match components_of(world, entities.last()).node {
            Some(node) => if node.is_field {
                rest.push(node.id)
            } else {
                rest
            },
            None => rest,
        }
    }
}

/// The first entity of `entities` that carries a unit.
pub open spec fn first_unit(world: WorldState, entities: Seq<Entity>) -> Option<Entity> {
    crate::world::first_where(entities, |entity: Entity| components_of(world, entity).unit is Some)
}

/// Whether the selected unit can see `target` for an attack: it is a unit of
/// a player, `target` lies in its attack range, and no unit of the same
/// player stands there. Then rays decide, which pass through the field nodes
/// on both hexagons.
pub open spec fn spec_attack_visibility(world: WorldState, selected: Entity, target: Cell) -> Option<
    Seq<i64>,
> {
    if !is_player_unit(world, selected) {
        None
    } else {
        let components = components_of(world, selected);
        let unit = components.unit->0;
        let hexagon = components.cell->0;
        let distance = spec_distance(hexagon, target);
        if !(unit.min_attack_range <= distance <= unit.max_attack_range) {
            None
        } else {
            let at_target = entities_at(world, world.order, target);
            let same_player = match first_unit(world, at_target) {
                None => false,
                Some(e) => components_of(world, e).player == components.player,
            };
            if same_player {
                None
            } else {
                Some(
                    field_nodes(world, at_target) + field_nodes(
                        world,
                        entities_at(world, world.order, hexagon),
                    ),
                )
            }
        }
    }
}

impl HexField {
    /// A field that is not hovered.
    pub fn new() -> (field: HexField)
        ensures
            !field.hovered,
    {
        HexField { hovered: false }
    }

    pub fn _on_field_mouse_entered(&mut self)
        ensures
            final(self).hovered,
    {
        self.hovered = true;
    }

    pub fn _on_field_mouse_exited(&mut self)
        ensures
            !final(self).hovered,
    {
        self.hovered = false;
    }

    /// Whether a unit stands on the hexagon of the field whose node has
    /// instance id `instance_id`; `None` when no entity has that node.
    pub fn has_unit_on_field(world: &World, instance_id: i64) -> (result: Option<bool>)
        requires
            world.wf(),
            entity_of_instance(world@, instance_id) matches Some(e) ==> components_of(world@, e).cell is Some,
        ensures
            result == (match entity_of_instance(world@, instance_id) {
                None => None::<bool>,
                Some(e) => Some(has_unit_at(world@, components_of(world@, e).cell->0)),
            }),
    {
        let entity = match find_entity_of_instance(instance_id, world) {
            None => {
                return None;
            },
            Some(entity) => entity,
        };
        let hexagon = world.components(entity).unwrap().cell.unwrap();
        let entities = GameWorld::get_entities_at_hexagon(&hexagon, world);
        let mut has_unit = false;
        let mut i: usize = 0;
        while i < entities.len()
            invariant_except_break
                !has_unit,
            invariant
                world.wf(),
                0 <= i <= entities@.len(),
                entities@ == entities_at(world@, world@.order, hexagon),
                forall|j: int| 0 <= j < i ==> components_of(world@, #[trigger] entities@[j]).unit is None,
            ensures
                has_unit == exists|j: int|
                    0 <= j < entities@.len() && components_of(world@, #[trigger] entities@[j]).unit is Some,
            decreases entities@.len() - i,
        {
            let e = entities[i];
            proof {
                crate::world::lemma_entities_at_members(world@, world@.order, hexagon, e);
                assert(entities@.contains(e)) by {
                    assert(entities@[i as int] == e);
                }
            }
            let carries = world.components(e).unwrap().unit.is_some();
            if carries {
                has_unit = true;
                assert(components_of(world@, entities@[i as int]).unit is Some);
                break;
            }
            i = i + 1;
        }
        proof {
            lemma_units_at(world@, hexagon, entities@);
        }
        Some(has_unit)
    }

    /// Whether the selected unit can walk the path found to `target`: false
    /// unless it is a unit of a player on a hexagon; otherwise its remaining
    /// range decides on the length of a path `find_path` gives.
    pub fn is_moveable(world: &World, selected: Entity, target: &Cell) -> (moveable: bool)
        requires
            world.wf(),
        ensures
            !is_player_unit(world@, selected) ==> !moveable,
            is_player_unit(world@, selected) ==> exists|path: Seq<Cell>|
                is_search_result(world@, path, components_of(world@, selected).cell->0, *target)
                    && moveable == spec_can_move(
                    components_of(world@, selected).unit->0.remaining_range,
                    path.len() as i32,
                ) is Yes,
    {
        let components = match world.components(selected) {
            None => {
                return false;
            },
            Some(components) => components,
        };
        let (unit, hexagon) = match (components.unit, components.cell, components.player) {
            (Some(unit), Some(hexagon), Some(_)) => (unit, hexagon),
            _ => {
                return false;
            },
        };
        let path = GameWorld::find_path(&hexagon, target, world);
        let length = path.len() as i32;
        match unit.can_move(length) {
            CanMove::Yes(_) => true,
            CanMove::No => false,
        }
    }

    /// Whether the selected unit may see `target` for an attack, and which
    /// field nodes rays between the hexagons pass through.
    pub fn attack_visibility(world: &World, selected: Entity, target: &Cell) -> (visibility:
        AttackVisibility)
        requires
            world.wf(),
            is_player_unit(world@, selected) ==> cells_distance_fits(
                components_of(world@, selected).cell->0,
                *target,
            ),
        ensures
            match spec_attack_visibility(world@, selected, *target) {
                None => visibility == AttackVisibility::Hidden,
                Some(exclude) => visibility matches AttackVisibility::NeedsRays(nodes) && nodes@
                    == exclude,
            },
    {
        let components = match world.components(selected) {
            None => {
                return AttackVisibility::Hidden;
            },
            Some(components) => components,
        };
        let (unit, hexagon, player) = match (components.unit, components.cell, components.player) {
            (Some(unit), Some(hexagon), Some(player)) => (unit, hexagon, player),
            _ => {
                return AttackVisibility::Hidden;
            },
        };
        if !unit.can_attack(hexagon.distance_to(target)) {
            return AttackVisibility::Hidden;
        }
        let entities_at_target = GameWorld::get_entities_at_hexagon(target, world);
        let target_entity = first_unit_of(world, &entities_at_target, target);
        let same_player = match target_entity {
            None => false,
            Some(e) => match world.components(e) {
                None => false,
                Some(target_components) => match target_components.player {
                    None => false,
                    Some(target_player) => target_player == player,
                },
            },
        };
        if same_player {
            return AttackVisibility::Hidden;
        }
        let mut exclude = field_nodes_of(world, &entities_at_target, target);
        let at_selected = GameWorld::get_entities_at_hexagon(&hexagon, world);
        let mut more = field_nodes_of(world, &at_selected, &hexagon);
        exclude.append(&mut more);
        AttackVisibility::NeedsRays(exclude)
    }
}

/// The units on `hexagon` are the entities standing there that carry a unit.
proof fn lemma_units_at(world: WorldState, hexagon: Cell, entities: Seq<Entity>)
    requires
        entities == entities_at(world, world.order, hexagon),
    ensures
        has_unit_at(world, hexagon) <==> exists|j: int|
            0 <= j < entities.len() && components_of(world, #[trigger] entities[j]).unit is Some,
{
    if has_unit_at(world, hexagon) {
        let i = choose|i: int|
            0 <= i < world.order.len() && #[trigger] components_of(world, world.order[i]).cell == Some(
                hexagon,
            ) && components_of(world, world.order[i]).unit is Some;
        let e = world.order[i];
        crate::world::lemma_entities_at_members(world, world.order, hexagon, e);
        assert(world.order.contains(e));
        let j = choose|j: int| 0 <= j < entities.len() && entities[j] == e;
        assert(components_of(world, entities[j]).unit is Some);
    }
    if exists|j: int| 0 <= j < entities.len() && components_of(world, #[trigger] entities[j]).unit is Some {
        let j = choose|j: int| 0 <= j < entities.len() && components_of(world, #[trigger] entities[j]).unit is Some;
        let e = entities[j];
        crate::world::lemma_entities_at_members(world, world.order, hexagon, e);
        assert(entities.contains(e));
        let i = choose|i: int| 0 <= i < world.order.len() && world.order[i] == e;
        assert(components_of(world, world.order[i]).cell == Some(hexagon));
    }
}

/// The first of `entities`, which stand on `hexagon`, that carries a unit.
fn first_unit_of(world: &World, entities: &Vec<Entity>, hexagon: &Cell) -> (result: Option<Entity>)
    requires
        world.wf(),
        entities@ == entities_at(world@, world@.order, *hexagon),
    ensures
        result == first_unit(world@, entities@),
        result matches Some(e) ==> alive(world@, e),
{
    let ghost pred = |entity: Entity| components_of(world@, entity).unit is Some;
    let mut i: usize = 0;
    assert(entities@.skip(0) == entities@);
    while i < entities.len()
        invariant
            world.wf(),
            0 <= i <= entities@.len(),
            entities@ == entities_at(world@, world@.order, *hexagon),
            pred == (|entity: Entity| components_of(world@, entity).unit is Some),
            crate::world::first_where(entities@, pred) == crate::world::first_where(
                entities@.skip(i as int),
                pred,
            ),
        decreases entities@.len() - i,
    {
        let e = entities[i];
        proof {
            crate::world::lemma_entities_at_members(world@, world@.order, *hexagon, e);
            assert(entities@.contains(e)) by {
                assert(entities@[i as int] == e);
            }
        }
        let carries = world.components(e).unwrap().unit.is_some();
        if carries {
            proof {
                crate::world::lemma_first_where_found(entities@, pred, i as int);
            }
            proof {
                lemma_first_unit_alive(world@, entities@, *hexagon);
            }
            return Some(e);
        }
        proof {
            crate::world::lemma_first_where_skip(entities@, pred, i as int);
        }
        i = i + 1;
    }
    assert(entities@.skip(i as int).len() == 0);
    None
}

proof fn lemma_first_unit_alive(world: WorldState, entities: Seq<Entity>, hexagon: Cell)
    requires
        entities == entities_at(world, world.order, hexagon),
    ensures
        first_unit(world, entities) matches Some(e) ==> alive(world, e),
{
    crate::world::lemma_first_where_member(entities, |entity: Entity| components_of(world, entity).unit is Some);
    if let Some(e) = first_unit(world, entities) {
        crate::world::lemma_entities_at_members(world, world.order, hexagon, e);
    }
}

/// The instance ids of the field nodes of `entities`, which stand on `hexagon`.
fn field_nodes_of(world: &World, entities: &Vec<Entity>, hexagon: &Cell) -> (nodes: Vec<i64>)
    requires
        world.wf(),
        entities@ == entities_at(world@, world@.order, *hexagon),
    ensures
        nodes@ == field_nodes(world@, entities@),
{
    let mut nodes: Vec<i64> = Vec::new();
    let mut i: usize = 0;
    while i < entities.len()
        invariant
            world.wf(),
            0 <= i <= entities@.len(),
            entities@ == entities_at(world@, world@.order, *hexagon),
            nodes@ == field_nodes(world@, entities@.take(i as int)),
        decreases entities@.len() - i,
    {
        let e = entities[i];
        proof {
            crate::world::lemma_entities_at_members(world@, world@.order, *hexagon, e);
            assert(entities@.contains(e)) by {
                assert(entities@[i as int] == e);
            }
            assert(entities@.take(i + 1).drop_last() == entities@.take(i as int));
        }
        match world.components(e).unwrap().node {
            Some(node) => {
                if node.is_field {
                    nodes.push(node.id);
                }
            },
            None => {},
        }
        i = i + 1;
    }
    assert(entities@.take(entities@.len() as int) == entities@);
    nodes
}

} // verus!
