//! The entity world of the game: entities with the components they carry.
use std::collections::HashMap;
use vstd::prelude::*;
use crate::components::cell::Cell;
use crate::components::unit::Unit;

verus! {

/// An entity of the world, named by its index.
#[derive(Clone, Copy, Debug, Hash, PartialEq, Eq, Structural)]
pub struct Entity {
    pub index: u32,
}

impl Entity {
    pub fn index(&self) -> (index: u32)
        ensures
            index == self.index,
    {
        self.index
    }
}

/// The scene node that shows an entity: its instance id, and whether it is
/// the node of a field of the map.
#[derive(Clone, Copy, Debug, PartialEq, Eq, Structural)]
pub struct NodeRef {
    pub id: i64,
    pub is_field: bool,
}

/// The components an entity carries: the hexagon it stands on, its unit
/// values, the index of the player it belongs to, its scene node, and whether
/// it is tagged as selected.
#[derive(Clone, Copy, Debug, PartialEq, Eq, Structural)]
pub struct Components {
    pub cell: Option<Cell>,
    pub unit: Option<Unit>,
    pub player: Option<usize>,
    pub node: Option<NodeRef>,
    pub selected: bool,
}

/// What a world holds: its live entities in order, and the components of each
/// entity under its index.
pub struct WorldState {
    pub order: Seq<Entity>,
    pub components: Map<u32, Components>,
}

/// Whether `entity` lives in the world.
pub open spec fn alive(world: WorldState, entity: Entity) -> bool {
    world.order.contains(entity)
}

/// The components of a live entity.
pub open spec fn components_of(world: WorldState, entity: Entity) -> Components {
    world.components[entity.index]
}

/// Whether a unit stands on `cell`.
pub open spec fn has_unit_at(world: WorldState, cell: Cell) -> bool {
    exists|i: int|
        0 <= i < world.order.len() && #[trigger] components_of(world, world.order[i]).cell == Some(
            cell,
        ) && components_of(world, world.order[i]).unit is Some
}

/// The world after `entity` was given `components`.
pub open spec fn with_components(world: WorldState, entity: Entity, components: Components) -> WorldState {
    WorldState { order: world.order, components: world.components.insert(entity.index, components) }
}

/// The world after `entity` was removed.
pub open spec fn without_entity(world: WorldState, entity: Entity) -> WorldState {
    WorldState {
        order: world.order.remove(world.order.index_of(entity)),
        components: world.components.remove(entity.index),
    }
}

/// The live entities of `order` that stand on `cell`, in order.
pub open spec fn entities_at(world: WorldState, order: Seq<Entity>, cell: Cell) -> Seq<Entity>
    decreases order.len(),
{
    if order.len() == 0 {
        Seq::empty()
    } else {
        let rest = entities_at(world, order.drop_last(), cell);
        if components_of(world, order.last()).cell == Some(cell) {
            rest.push(order.last())
        } else {
            rest
        }
    }
}

/// The game world: live entities with their components.
pub struct World {
    order: Vec<Entity>,
    components: HashMap<u32, Components>,
    next_index: u32,
}

impl View for World {
    type V = WorldState;

    closed spec fn view(&self) -> WorldState {
        WorldState { order: self.order@, components: self.components@ }
    }
}

impl World {
    /// The entities in the order are distinct, and exactly they have components.
    pub closed spec fn wf(&self) -> bool {
        &&& self.order@.no_duplicates()
        &&& forall|i: int|
            0 <= i < self.order@.len() ==> self.components@.contains_key(
                #[trigger] self.order@[i].index,
            ) && self.order@[i].index < self.next_index
        &&& forall|k: u32| #[trigger]
            self.components@.contains_key(k) ==> self.order@.contains(Entity { index: k })
    }

    /// How many more entities can be inserted.
    pub closed spec fn free_indices(&self) -> int {
        u32::MAX - self.next_index
    }

    /// An empty world.
    pub fn new() -> (world: World)
        ensures
            world.wf(),
            world@.order.len() == 0,
            world@.components.dom().is_empty(),
            world.free_indices() == u32::MAX,
    {
        World { order: Vec::new(), components: HashMap::new(), next_index: 0 }
    }

    /// The live entities of a well-formed world are distinct.
    pub proof fn lemma_distinct(&self)
        requires
            self.wf(),
        ensures
            self@.order.no_duplicates(),
    {
    }

    /// Whether another entity can be inserted.
    pub fn has_free_index(&self) -> (free: bool)
        ensures
            free == (self.free_indices() > 0),
    {
        self.next_index < u32::MAX
    }

    /// Inserts a new entity with `components`.
    pub fn insert(&mut self, components: Components) -> (entity: Entity)
        requires
            old(self).wf(),
            old(self).free_indices() > 0,
        ensures
            final(self).wf(),
            !alive(old(self)@, entity),
            final(self)@.order == old(self)@.order.push(entity),
            final(self)@.components == old(self)@.components.insert(entity.index, components),
            final(self).free_indices() == old(self).free_indices() - 1,
    {
        let entity = Entity { index: self.next_index };
        proof {
            if self.order@.contains(entity) {
                let i = choose|i: int| 0 <= i < self.order@.len() && self.order@[i] == entity;
                assert(self.components@.contains_key(self.order@[i].index));
            }
        }
        self.order.push(entity);
        self.components.insert(entity.index, components);
        self.next_index = self.next_index + 1;
        proof {
            assert forall|k: u32| #[trigger]
                self.components@.contains_key(k) implies self.order@.contains(Entity { index: k }) by {
                if k != entity.index {
                    let i = choose|i: int|
                        0 <= i < old(self).order@.len() && old(self).order@[i] == Entity {
                            index: k,
                        };
                    assert(self.order@[i] == Entity { index: k });
                } else {
                    assert(self.order@[self.order@.len() - 1] == entity);
                }
            }
        }
        entity
    }

    /// Whether `entity` lives in the world.
    pub fn is_alive(&self, entity: Entity) -> (result: bool)
        requires
            self.wf(),
        ensures
            result == alive(self@, entity),
    {
        let found = self.components.contains_key(&entity.index);
        proof {
            if alive(self@, entity) {
                let i = choose|i: int| 0 <= i < self.order@.len() && self.order@[i] == entity;
                assert(self.components@.contains_key(self.order@[i].index));
            }
        }
        found
    }

    /// The components of `entity`, or `None` when it does not live.
    pub fn components(&self, entity: Entity) -> (result: Option<Components>)
        requires
            self.wf(),
        ensures
            result == (if alive(self@, entity) {
                Some(components_of(self@, entity))
            } else {
                None::<Components>
            }),
    {
        let found = self.components.get(&entity.index);
        proof {
            if alive(self@, entity) {
                let i = choose|i: int| 0 <= i < self.order@.len() && self.order@[i] == entity;
                assert(self.components@.contains_key(self.order@[i].index));
            }
        }
        match found {
            Some(components) => Some(*components),
            None => None,
        }
    }

    /// Gives a live `entity` new `components`; `false`, and no change, when it
    /// does not live.
    pub fn set_components(&mut self, entity: Entity, components: Components) -> (updated: bool)
        requires
            old(self).wf(),
        ensures
            final(self).wf(),
            updated == alive(old(self)@, entity),
            final(self)@ == (if updated {
                with_components(old(self)@, entity, components)
            } else {
                old(self)@
            }),
            final(self).free_indices() == old(self).free_indices(),
    {
        if self.components.contains_key(&entity.index) {
            self.components.insert(entity.index, components);
            proof {
                assert(self.order@.contains(entity));
                assert forall|i: int| 0 <= i < self.order@.len() implies self.components@.contains_key(
                    #[trigger] self.order@[i].index,
                ) && self.order@[i].index < self.next_index by {
                    assert(old(self).components@.contains_key(old(self).order@[i].index));
                }
            }
            true
        } else {
            proof {
                if alive(self@, entity) {
                    let i = choose|i: int| 0 <= i < self.order@.len() && self.order@[i] == entity;
                    assert(self.components@.contains_key(self.order@[i].index));
                }
            }
            false
        }
    }

    /// Removes `entity` from the world; `false`, and no change, when it did not live.
    pub fn delete(&mut self, entity: Entity) -> (deleted: bool)
        requires
            old(self).wf(),
        ensures
            final(self).wf(),
            deleted == alive(old(self)@, entity),
            deleted ==> final(self)@ == without_entity(old(self)@, entity),
            !deleted ==> final(self)@ == old(self)@,
            final(self).free_indices() == old(self).free_indices(),
    {
        let mut i: usize = 0;
        while i < self.order.len() && self.order[i] != entity
            invariant
                0 <= i <= self.order@.len(),
                forall|j: int| 0 <= j < i ==> self.order@[j] != entity,
            decreases self.order@.len() - i,
        {
            i = i + 1;
        }
        if i == self.order.len() {
            assert(!self.order@.contains(entity));
            return false;
        }
        assert(self.order@[i as int] == entity);
        proof {
            self.order@.index_of_first_ensures(entity);
            assert(self.order@.index_of(entity) == i) by {
                self.order@.unique_seq_to_set();
                self.order@.index_of_first_ensures(entity);
            }
        }
        let ghost old_order = self.order@;
        self.order.remove(i);
        self.components.remove(&entity.index);
        proof {
            assert(self.order@ == old_order.remove(i as int));
            assert forall|a: int, b: int|
                0 <= a < self.order@.len() && 0 <= b < self.order@.len() && a != b implies self.order@[a]
                != self.order@[b] by {
                let oa = if a < i { a } else { a + 1 };
                let ob = if b < i { b } else { b + 1 };
                assert(self.order@[a] == old_order[oa]);
                assert(self.order@[b] == old_order[ob]);
            }
            assert forall|j: int| 0 <= j < self.order@.len() implies self.components@.contains_key(
                #[trigger] self.order@[j].index,
            ) && self.order@[j].index < self.next_index by {
                let oj = if j < i { j } else { j + 1 };
                assert(self.order@[j] == old_order[oj]);
                assert(old_order[oj] != old_order[i as int]);
            }
            assert forall|k: u32| #[trigger]
                self.components@.contains_key(k) implies self.order@.contains(Entity { index: k }) by {
                let oj = choose|oj: int| 0 <= oj < old_order.len() && old_order[oj] == Entity { index: k };
                assert(oj != i);
                let j = if oj < i { oj } else { oj - 1 };
                assert(self.order@[j] == Entity { index: k });
            }
        }
        true
    }

    /// The number of live entities.
    pub fn len(&self) -> (count: usize)
        requires
            self.wf(),
        ensures
            count == self@.order.len(),
            self@.order.no_duplicates(),
    {
        self.order.len()
    }

    /// The live entity at `position` in the order of the world.
    pub fn entity_at(&self, position: usize) -> (entity: Entity)
        requires
            self.wf(),
            position < self@.order.len(),
        ensures
            entity == self@.order[position as int],
    {
        self.order[position]
    }
}

} // verus!

verus! {

/// The first entity of `order` that satisfies `pred`.
pub open spec fn first_where(order: Seq<Entity>, pred: spec_fn(Entity) -> bool) -> Option<Entity>
    decreases order.len(),
{
    if order.len() == 0 {
        None
    } else if pred(order[0]) {
        Some(order[0])
    } else {
        first_where(order.drop_first(), pred)
    }
}

/// Skipping an entity that fails `pred` keeps the first that satisfies it.
pub proof fn lemma_first_where_skip(order: Seq<Entity>, pred: spec_fn(Entity) -> bool, i: int)
    requires
        0 <= i < order.len(),
        !pred(order[i]),
    ensures
        first_where(order.skip(i), pred) == first_where(order.skip(i + 1), pred),
{
    assert(order.skip(i)[0] == order[i]);
    assert(order.skip(i).drop_first() == order.skip(i + 1));
}

/// An entity that satisfies `pred` is the first of the rest that does.
pub proof fn lemma_first_where_found(order: Seq<Entity>, pred: spec_fn(Entity) -> bool, i: int)
    requires
        0 <= i < order.len(),
        pred(order[i]),
    ensures
        first_where(order.skip(i), pred) == Some(order[i]),
{
    assert(order.skip(i)[0] == order[i]);
}

/// The first entity that satisfies `pred` belongs to `order` and satisfies it.
pub proof fn lemma_first_where_member(order: Seq<Entity>, pred: spec_fn(Entity) -> bool)
    ensures
        first_where(order, pred) matches Some(e) ==> order.contains(e) && pred(e),
    decreases order.len(),
{
    if order.len() > 0 && !pred(order[0]) {
        lemma_first_where_member(order.drop_first(), pred);
        if let Some(e) = first_where(order.drop_first(), pred) {
            let i = choose|i: int| 0 <= i < order.drop_first().len() && order.drop_first()[i] == e;
            assert(order[i + 1] == e);
        }
    }
    if order.len() > 0 && pred(order[0]) {
        assert(order.contains(order[0]));
    }
}

/// An entity stands among `entities_at` exactly when it is in the order and on the hexagon.
pub proof fn lemma_entities_at_members(world: WorldState, order: Seq<Entity>, cell: Cell, e: Entity)
    ensures
        entities_at(world, order, cell).contains(e) <==> (order.contains(e) && components_of(
            world,
            e,
        ).cell == Some(cell)),
    decreases order.len(),
{
    if order.len() > 0 {
        let front = order.drop_last();
        let last = order.last();
        let rest = entities_at(world, front, cell);
        lemma_entities_at_members(world, front, cell, e);
        assert(order == front.push(last));
        assert(order.contains(e) <==> (front.contains(e) || e == last)) by {
            if order.contains(e) && e != last {
                let i = choose|i: int| 0 <= i < order.len() && order[i] == e;
                assert(i != order.len() - 1);
                assert(front[i] == e);
            }
            if front.contains(e) {
                let i = choose|i: int| 0 <= i < front.len() && front[i] == e;
                assert(order[i] == e);
            }
            if e == last {
                assert(order[order.len() - 1] == e);
            }
        }
        if components_of(world, last).cell == Some(cell) {
            assert(entities_at(world, order, cell) == rest.push(last));
            assert(rest.push(last).contains(e) <==> (rest.contains(e) || e == last)) by {
                if rest.push(last).contains(e) && e != last {
                    let i = choose|i: int| 0 <= i < rest.push(last).len() && rest.push(last)[i] == e;
                    assert(rest[i] == e);
                }
                if rest.contains(e) {
                    let i = choose|i: int| 0 <= i < rest.len() && rest[i] == e;
                    assert(rest.push(last)[i] == e);
                }
                if e == last {
                    assert(rest.push(last)[rest.len() as int] == e);
                }
            }
        } else {
            assert(entities_at(world, order, cell) == rest);
        }
    }
}

/// A deleted entity no longer lives, and every other entity lives on with
/// its components.
pub proof fn lemma_deleted_entity_is_gone(world: WorldState, entity: Entity, other: Entity)
    requires
        world.order.no_duplicates(),
        alive(world, entity),
        other != entity,
    ensures
        !alive(without_entity(world, entity), entity),
        alive(without_entity(world, entity), other) == alive(world, other),
        components_of(without_entity(world, entity), other) == components_of(world, other),
{
    let i = world.order.index_of(entity);
    world.order.index_of_first_ensures(entity);
    let after = without_entity(world, entity);
    assert(after.order == world.order.remove(i));
    if alive(after, entity) {
        let j = choose|j: int| 0 <= j < after.order.len() && after.order[j] == entity;
        if j < i {
            assert(world.order[j] == entity);
        } else {
            assert(world.order[j + 1] == entity);
        }
    }
    if alive(world, other) {
        let j = choose|j: int| 0 <= j < world.order.len() && world.order[j] == other;
        if j < i {
            assert(after.order[j] == other);
        } else {
            assert(j != i);
            assert(after.order[j - 1] == other);
        }
    }
    if alive(after, other) {
        let j = choose|j: int| 0 <= j < after.order.len() && after.order[j] == other;
        if j < i {
            assert(world.order[j] == other);
        } else {
            assert(world.order[j + 1] == other);
        }
    }
}

} // verus!
