//! A field of the grid that lights up when the selected unit can reach it.
use vstd::prelude::*;
use crate::components::cell::{cells_distance_fits, spec_distance};
use crate::components::unit::{CanMove, spec_can_move};
use crate::gameworld::GameWorld;
use crate::world::{
    Entity, World, WorldState, alive, components_of, first_where, lemma_first_where_found,
    lemma_first_where_member, lemma_first_where_skip,
};

verus! {

/// A field of the grid: whether the mouse is over it, and its neighbours.
pub struct HexField {
    pub hovered: bool,
    pub northwest: Option<Box<HexField>>,
    pub northeast: Option<Box<HexField>>,
    pub east: Option<Box<HexField>>,
    pub southeast: Option<Box<HexField>>,
    pub southwest: Option<Box<HexField>>,
    pub west: Option<Box<HexField>>,
}

/// How a field is shaded.
#[derive(Clone, Copy, Debug, PartialEq, Eq, Structural)]
pub enum FieldShade {
    /// Neither hovered nor in range.
    Plain,
    /// Hovered or in range, not both.
    Dim,
    /// Hovered and in range.
    Bright,
}

/// Whether `entity` is a selected unit on a hexagon.
pub open spec fn is_selected_unit(world: WorldState, entity: Entity) -> bool {
    &&& components_of(world, entity).unit is Some
    &&& components_of(world, entity).cell is Some
    &&& components_of(world, entity).selected
}

/// The first selected unit on a hexagon.
pub open spec fn selected_unit(world: WorldState) -> Option<Entity> {
    first_where(world.order, |entity: Entity| is_selected_unit(world, entity))
}

/// Whether the selected unit can walk to the field of the entity with index
/// `field_index`: it is as far from the unit's hexagon as the remaining range allows.
pub open spec fn spec_in_range(world: WorldState, field_index: u32) -> bool {
    match selected_unit(world) {
        None => false,
        Some(selected) => {
            let field = Entity { index: field_index };
            alive(world, field) && components_of(world, field).cell is Some && spec_can_move(
                components_of(world, selected).unit->0.remaining_range,
                spec_distance(
                    components_of(world, field).cell->0,
                    components_of(world, selected).cell->0,
                ) as i32,
            ) is Yes
        },
    }
}

/// Whether the distance that `is_selected_in_range` computes stays inside `i32` arithmetic.
pub open spec fn in_range_fits(world: WorldState, field_index: u32) -> bool {
    let field = Entity { index: field_index };
    selected_unit(world) matches Some(selected) ==> (alive(world, field) && components_of(
        world,
        field,
    ).cell is Some ==> cells_distance_fits(
        components_of(world, field).cell->0,
        components_of(world, selected).cell->0,
    ))
}

impl HexField {
    /// A field that is not hovered and knows no neighbours.
    pub fn new() -> (field: HexField)
        ensures
            !field.hovered,
            field.northwest is None && field.northeast is None && field.east is None,
            field.southeast is None && field.southwest is None && field.west is None,
    {
        HexField {
            hovered: false,
            northwest: None,
            northeast: None,
            east: None,
            southeast: None,
            southwest: None,
            west: None,
        }
    }

    pub fn _on_field_mouse_entered(&mut self)
        ensures
            *final(self) == (HexField { hovered: true, ..*old(self) }),
    {
        self.hovered = true;
    }

    pub fn _on_field_mouse_exited(&mut self)
        ensures
            *final(self) == (HexField { hovered: false, ..*old(self) }),
    {
        self.hovered = false;
    }

    /// The shade of the field when the selected unit can or cannot reach it.
    pub fn field_shade(&self, in_range: bool) -> (shade: FieldShade)
        ensures
            shade == (if self.hovered && in_range {
                FieldShade::Bright
            } else if self.hovered || in_range {
                FieldShade::Dim
            } else {
                FieldShade::Plain
            }),
    {
        if self.hovered {
            if !in_range {
                FieldShade::Dim
            } else {
                FieldShade::Bright
            }
        } else if in_range {
            FieldShade::Dim
        } else {
            FieldShade::Plain
        }
    }

    /// Whether the distance that `is_selected_in_range` computes for the
    /// field of the entity with index `field_index` stays inside `i32`
    /// arithmetic.
    pub fn in_range_computable(world: &World, field_index: u32) -> (computable: bool)
        requires
            world.wf(),
        ensures
            computable == in_range_fits(world@, field_index),
    {
        let selected = match find_selected_unit(world) {
            None => {
                return true;
            },
            Some(entity) => entity,
        };
        let selected_hexagon = world.components(selected).unwrap().cell.unwrap();
        let self_entity = match GameWorld::find_entity(field_index, world) {
            None => {
                return true;
            },
            Some(entity) => entity,
        };
        match world.components(self_entity).unwrap().cell {
            None => true,
            Some(hexagon) => hexagon.distance_fits_with(&selected_hexagon),
        }
    }

    /// Whether the selected unit can walk to the field of the entity with
    /// index `field_index`.
    pub fn is_selected_in_range(world: &World, field_index: u32) -> (in_range: bool)
        requires
            world.wf(),
            in_range_fits(world@, field_index),
        ensures
            in_range == spec_in_range(world@, field_index),
    {
        let selected = match find_selected_unit(world) {
            None => {
                return false;
            },
            Some(entity) => entity,
        };
        let selected_components = world.components(selected).unwrap();
        let selected_unit = selected_components.unit.unwrap();
        let selected_hexagon = selected_components.cell.unwrap();
        let self_entity = match GameWorld::find_entity(field_index, world) {
            None => {
                return false;
            },
            Some(entity) => entity,
        };
        let self_hexagon = match world.components(self_entity).unwrap().cell {
            None => {
                return false;
            },
            Some(hexagon) => hexagon,
        };
        let distance_to_selected = self_hexagon.distance_to(&selected_hexagon);
        match selected_unit.can_move(distance_to_selected) {
            CanMove::Yes(_) => true,
            CanMove::No => false,
        }
    }
}

/// The first selected unit on a hexagon, if any.
fn find_selected_unit(world: &World) -> (selected: Option<Entity>)
    requires
        world.wf(),
    ensures
        selected == selected_unit(world@),
        selected matches Some(e) ==> alive(world@, e) && is_selected_unit(world@, e),
{
    let ghost pred = |entity: Entity| is_selected_unit(world@, entity);
    let count = world.len();
    let mut i: usize = 0;
    assert(world@.order.skip(0) == world@.order);
    let mut selected: Option<Entity> = None;
    while i < count
        invariant_except_break
            selected is None,
        invariant
            world.wf(),
            count == world@.order.len(),
            0 <= i <= count,
            pred == (|entity: Entity| is_selected_unit(world@, entity)),
            first_where(world@.order, pred) == first_where(world@.order.skip(i as int), pred),
        ensures
            selected == first_where(world@.order, pred),
        decreases count - i,
    {
        let entity = world.entity_at(i);
        assert(world@.order.contains(entity));
        let components = world.components(entity).unwrap();
        assert(world@.order[i as int] == entity);
        if components.unit.is_some() && components.cell.is_some() && components.selected {
            proof {
                lemma_first_where_found(world@.order, pred, i as int);
            }
            selected = Some(entity);
            break;
        }
        proof {
            lemma_first_where_skip(world@.order, pred, i as int);
            if i + 1 == count {
                assert(world@.order.skip(count as int).len() == 0);
            }
        }
        i = i + 1;
    }
    proof {
        lemma_first_where_member(world@.order, pred);
    }
    selected
}

} // verus!
