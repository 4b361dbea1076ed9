//! Lookups that the game systems share.
pub mod hexmap;

use vstd::prelude::*;
use crate::world::{
    Entity, World, WorldState, alive, components_of, first_where, lemma_first_where_found,
    lemma_first_where_member, lemma_first_where_skip,
};

verus! {

/// Whether the scene node of `entity` has instance id `instance_id`.
pub open spec fn has_instance(world: WorldState, entity: Entity, instance_id: i64) -> bool {
    components_of(world, entity).node matches Some(node) && node.id == instance_id
}

/// The first entity whose scene node has instance id `instance_id`.
pub open spec fn entity_of_instance(world: WorldState, instance_id: i64) -> Option<Entity> {
    first_where(world.order, |entity: Entity| has_instance(world, entity, instance_id))
}

/// The entity whose scene node has instance id `instance_id`, if any.
pub fn find_entity_of_instance(instance_id: i64, world: &World) -> (result: Option<Entity>)
    requires
        world.wf(),
    ensures
        result == entity_of_instance(world@, instance_id),
        result matches Some(e) ==> alive(world@, e) && has_instance(world@, e, instance_id),
{
    let ghost pred = |entity: Entity| has_instance(world@, entity, instance_id);
    let count = world.len();
    let mut i: usize = 0;
    assert(world@.order.skip(0) == world@.order);
    let mut found: Option<Entity> = None;
    while i < count
        invariant_except_break
            found is None,
        invariant
            world.wf(),
            count == world@.order.len(),
            0 <= i <= count,
            pred == (|entity: Entity| has_instance(world@, entity, instance_id)),
            first_where(world@.order, pred) == first_where(world@.order.skip(i as int), pred),
        ensures
            found == first_where(world@.order, pred),
        decreases count - i,
    {
        let entity = world.entity_at(i);
        assert(world@.order.contains(entity));
        let components = world.components(entity).unwrap();
        let matches = match components.node {
            Some(node) => node.id == instance_id,
            None => false,
        };
        if matches {
            proof {
                assert(world@.order[i as int] == entity);
                assert(pred(world@.order[i as int]));
                lemma_first_where_found(world@.order, pred, i as int);
            }
            found = Some(entity);
            break;
        }
        proof {
            assert(world@.order[i as int] == entity);
            assert(!pred(world@.order[i as int]));
            lemma_first_where_skip(world@.order, pred, i as int);
            if i + 1 == count {
                assert(world@.order.skip(count as int).len() == 0);
            }
        }
        i = i + 1;
    }
    proof {
        lemma_first_where_member(world@.order, pred);
    }
    found
}

} // verus!
