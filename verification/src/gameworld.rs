//! The rules the game world plays by: finding entities, attacking, moving,
//! starting a round, and finding a path between two hexagons.
use std::collections::HashMap;
use vstd::prelude::*;
use vstd::set_lib::{lemma_int_range, lemma_len_subset, lemma_map_size, set_int_range};
use crate::components::cell::{
    Cell, Direction, axial_fits, cells_distance_fits, is_inner, lemma_neighbour_step, spec_distance,
    spec_neighbour,
};
use crate::components::cube::{abs, cube_distance, lemma_cube_triangle};
use crate::components::unit::{AttackResult, CanMove, Unit, spec_can_move};
use crate::frontier::{
    Frontier, FrontierItem, frontier_contents, frontier_is_empty, frontier_new, frontier_pop,
    frontier_push,
};
use crate::world::{
    Components, Entity, World, WorldState, alive, components_of, entities_at, has_unit_at,
    with_components, without_entity,
};

verus! {

broadcast use vstd::std_specs::hash::group_hash_axioms;

/// The state the game world keeps between events: the index of the selected
/// entity, and the path shown to the hovered hexagon.
pub struct GameWorld {
    pub selected_entity: Option<u32>,
    pub current_path: Vec<Cell>,
}

impl GameWorld {

/// The live entity with index `entity_index`, if there is one.
pub fn find_entity(entity_index: u32, world: &World) -> (result: Option<Entity>)
    requires
        world.wf(),
    ensures
        result == (if alive(world@, Entity { index: entity_index }) {
            Some(Entity { index: entity_index })
        } else {
            None::<Entity>
        }),
{
    let mut i: usize = 0;
    while i < world.len()
        invariant
            world.wf(),
            0 <= i <= world@.order.len(),
            forall|j: int| 0 <= j < i ==> world@.order[j].index != entity_index,
        decreases world@.order.len() - i,
    {
        let entity = world.entity_at(i);
        if entity.index() == entity_index {
            assert(world@.order[i as int] == Entity { index: entity_index });
            return Some(entity);
        }
        i = i + 1;
    }
    assert(!alive(world@, Entity { index: entity_index }));
    None
}

/// The live entities standing on `hexagon`, in the order of the world.
pub fn get_entities_at_hexagon(hexagon: &Cell, world: &World) -> (result: Vec<Entity>)
    requires
        world.wf(),
    ensures
        result@ == entities_at(world@, world@.order, *hexagon),
{
    let mut result: Vec<Entity> = Vec::new();
    let mut i: usize = 0;
    while i < world.len()
        invariant
            world.wf(),
            0 <= i <= world@.order.len(),
            result@ == entities_at(world@, world@.order.take(i as int), *hexagon),
        decreases world@.order.len() - i,
    {
        let entity = world.entity_at(i);
        assert(world@.order.take(i + 1).drop_last() == world@.order.take(i as int));
        assert(world@.order.contains(entity));
        let components = world.components(entity);
        match components {
            Some(components) => {
                match components.cell {
                    Some(cell) => {
                        if cell == *hexagon {
                            result.push(entity);
                        }
                    },
                    None => {},
                }
            },
            None => {},
        }
        i = i + 1;
    }
    assert(world@.order.take(world@.order.len() as int) == world@.order);
    result
}

}

/// Whether a unit stands on `hexagon`.
fn unit_at_hexagon(hexagon: &Cell, world: &World) -> (result: bool)
    requires
        world.wf(),
    ensures
        result == has_unit_at(world@, *hexagon),
{
    let mut i: usize = 0;
    while i < world.len()
        invariant
            world.wf(),
            0 <= i <= world@.order.len(),
            forall|j: int|
                0 <= j < i ==> !(#[trigger] components_of(world@, world@.order[j]).cell == Some(
                    *hexagon,
                ) && components_of(world@, world@.order[j]).unit is Some),
        decreases world@.order.len() - i,
    {
        let entity = world.entity_at(i);
        assert(world@.order.contains(entity));
        let components = world.components(entity);
        match components {
            Some(components) => {
                match components.cell {
                    Some(cell) => {
                        if cell == *hexagon && components.unit.is_some() {
                            return true;
                        }
                    },
                    None => {},
                }
            },
            None => {},
        }
        i = i + 1;
    }
    false
}

impl GameWorld {

/// The six neighbours of `hexagon`, in the order East, North-East,
/// North-West, West, South-West, South-East.
pub fn get_neighbours(hexagon: &Cell) -> (neighbours: Vec<Cell>)
    requires
        is_inner(*hexagon),
    ensures
        neighbours@.len() == 6,
        forall|j: int| 0 <= j < 6 ==> neighbours@[j] == spec_neighbour(*hexagon, direction_at(j)),
{
    vec![
        hexagon.get_neighbour(Direction::East),
        hexagon.get_neighbour(Direction::NorthEast),
        hexagon.get_neighbour(Direction::NorthWest),
        hexagon.get_neighbour(Direction::West),
        hexagon.get_neighbour(Direction::SouthWest),
        hexagon.get_neighbour(Direction::SouthEast),
    ]
}

}

/// The direction of the `j`-th neighbour that `get_neighbours` lists.
pub open spec fn direction_at(j: int) -> Direction {
    if j == 0 {
        Direction::East
    } else if j == 1 {
        Direction::NorthEast
    } else if j == 2 {
        Direction::NorthWest
    } else if j == 3 {
        Direction::West
    } else if j == 4 {
        Direction::SouthWest
    } else {
        Direction::SouthEast
    }
}

/// Where `direction` stands in the list of `get_neighbours`.
pub open spec fn direction_index(direction: Direction) -> int {
    match direction {
        Direction::East => 0,
        Direction::NorthEast => 1,
        Direction::NorthWest => 2,
        Direction::West => 3,
        Direction::SouthWest => 4,
        Direction::SouthEast => 5,
    }
}

/// One step of a path: `to` is a neighbour of `from`, which lies off the edge
/// of the coordinate range so that all its neighbours exist.
pub open spec fn is_step(from: Cell, to: Cell) -> bool {
    is_inner(from) && exists|direction: Direction| to == #[trigger] spec_neighbour(from, direction)
}

/// Whether `path` walks from `start` to `target` in single steps, and no unit
/// stands on any of its hexagons after `start`.
pub open spec fn is_free_path(world: WorldState, path: Seq<Cell>, start: Cell, target: Cell) -> bool {
    &&& path.len() >= 2
    &&& path[0] == start
    &&& path.last() == target
    &&& forall|i: int| 0 <= i < path.len() - 1 ==> #[trigger] is_step(path[i], path[i + 1])
    &&& forall|i: int| 1 <= i < path.len() ==> !has_unit_at(world, #[trigger] path[i])
}

/// Whether some free path leads from `start` to `target`.
pub open spec fn path_exists(world: WorldState, start: Cell, target: Cell) -> bool {
    exists|path: Seq<Cell>| is_free_path(world, path, start, target)
}

/// Whether no free path from `start` to `target` has fewer hexagons than `path`.
pub open spec fn is_shortest(world: WorldState, path: Seq<Cell>, start: Cell, target: Cell) -> bool {
    forall|other: Seq<Cell>| #[trigger]
        is_free_path(world, other, start, target) ==> path.len() <= other.len()
}

/// What a path search from `start` to `target` may return: nothing when a
/// unit stands on `target` or `start` is `target`; otherwise a shortest free
/// path exactly when one exists.
pub open spec fn is_search_result(world: WorldState, path: Seq<Cell>, start: Cell, target: Cell) -> bool {
    &&& has_unit_at(world, target) || start == target ==> path.len() == 0
    &&& !has_unit_at(world, target) && start != target ==> (path.len() > 0 <==> path_exists(
        world,
        start,
        target,
    ))
    &&& path.len() > 0 ==> is_free_path(world, path, start, target)
    &&& path.len() > 0 ==> is_shortest(world, path, start, target)
}

/// Any two results of a path search between the same hexagons of the same
/// world have the same length: a path is found in both or in neither, and
/// both are shortest.
pub proof fn lemma_search_results_same_length(
    world: WorldState,
    start: Cell,
    target: Cell,
    first: Seq<Cell>,
    second: Seq<Cell>,
)
    requires
        is_search_result(world, first, start, target),
        is_search_result(world, second, start, target),
    ensures
        first.len() == second.len(),
{
    if first.len() > 0 && second.len() > 0 {
        assert(is_free_path(world, second, start, target));
        assert(is_free_path(world, first, start, target));
    }
}

/// The key under which the search stores a hexagon: it tells apart any two
/// hexagons with different `q` or `r`.
pub open spec fn cell_key(cell: Cell) -> int {
    cell.q * 4294967296 + (cell.r + 2147483648)
}

/// The sum of the cube coordinates of `cell`; a step keeps it.
pub open spec fn cell_sum(cell: Cell) -> int {
    cell.q + cell.r + cell.s
}

/// The hexagon of a frontier item.
pub open spec fn item_cell(item: FrontierItem) -> Cell {
    Cell { q: item.0, r: item.1, s: item.2 }
}

/// The frontier item of a hexagon.
pub open spec fn cell_item(cell: Cell) -> FrontierItem {
    (cell.q, cell.r, cell.s)
}

/// The sum of the costs stored under `keys`.
pub open spec fn sum_costs(keys: Seq<i64>, costs: Map<i64, i128>) -> int
    decreases keys.len(),
{
    if keys.len() == 0 {
        0
    } else {
        sum_costs(keys.drop_last(), costs) + costs[keys.last()]
    }
}

proof fn lemma_key_injective(a: Cell, b: Cell)
    requires
        cell_key(a) == cell_key(b),
        cell_sum(a) == cell_sum(b),
    ensures
        a == b,
{
    assert(a.q == b.q) by (nonlinear_arith)
        requires
            a.q * 4294967296 + (a.r + 2147483648) == b.q * 4294967296 + (b.r + 2147483648),
            -2147483648 <= a.r < 2147483648,
            -2147483648 <= b.r < 2147483648,
    ;
}

proof fn lemma_step_keeps_sum(from: Cell, direction: Direction)
    requires
        is_inner(from),
    ensures
        cell_sum(spec_neighbour(from, direction)) == cell_sum(from),
        spec_neighbour(from, direction) == spec_neighbour(from, direction_at(direction_index(direction))),
{
}

proof fn lemma_sum_costs_other_key(keys: Seq<i64>, costs: Map<i64, i128>, key: i64, cost: i128)
    requires
        !keys.contains(key),
    ensures
        sum_costs(keys, costs.insert(key, cost)) == sum_costs(keys, costs),
    decreases keys.len(),
{
    if keys.len() > 0 {
        assert(!keys.drop_last().contains(key)) by {
            if keys.drop_last().contains(key) {
                let i = choose|i: int| 0 <= i < keys.drop_last().len() && keys.drop_last()[i] == key;
                assert(keys[i] == key);
            }
        }
        assert(keys.last() != key) by {
            assert(keys[keys.len() - 1] == keys.last());
        }
        lemma_sum_costs_other_key(keys.drop_last(), costs, key, cost);
    }
}

proof fn lemma_sum_costs_update(keys: Seq<i64>, costs: Map<i64, i128>, key: i64, cost: i128)
    requires
        keys.contains(key),
        keys.no_duplicates(),
    ensures
        sum_costs(keys, costs.insert(key, cost)) == sum_costs(keys, costs) - costs[key] + cost,
    decreases keys.len(),
{
    let rest = keys.drop_last();
    assert(rest.no_duplicates());
    if keys.last() == key {
        assert(!rest.contains(key)) by {
            if rest.contains(key) {
                let i = choose|i: int| 0 <= i < rest.len() && rest[i] == key;
                assert(keys[i] == keys[keys.len() - 1]);
            }
        }
        lemma_sum_costs_other_key(rest, costs, key, cost);
    } else {
        assert(rest.contains(key)) by {
            let i = choose|i: int| 0 <= i < keys.len() && keys[i] == key;
            assert(i != keys.len() - 1);
            assert(rest[i] == key);
        }
        lemma_sum_costs_update(rest, costs, key, cost);
    }
}

proof fn lemma_sum_costs_nonnegative(keys: Seq<i64>, costs: Map<i64, i128>)
    requires
        forall|i: int| 0 <= i < keys.len() ==> costs[#[trigger] keys[i]] >= 0,
    ensures
        sum_costs(keys, costs) >= 0,
    decreases keys.len(),
{
    if keys.len() > 0 {
        assert(costs[keys[keys.len() - 1]] >= 0);
        lemma_sum_costs_nonnegative(keys.drop_last(), costs);
    }
}

/// No finite set of `i64` has more than 2^64 elements.
proof fn lemma_key_set_bound(keys: Set<i64>)
    requires
        keys.finite(),
    ensures
        keys.len() <= 18446744073709551616,
{
    let f = |k: i64| k as int;
    let image = keys.map(f);
    lemma_map_size(keys, image, f);
    lemma_int_range(-9223372036854775808, 9223372036854775808);
    assert(image.subset_of(set_int_range(-9223372036854775808, 9223372036854775808)));
    lemma_len_subset(image, set_int_range(-9223372036854775808, 9223372036854775808));
}

/// The key of `cell` as an `i64`.
pub open spec fn key_of(cell: Cell) -> i64 {
    cell_key(cell) as i64
}

proof fn lemma_key_range(cell: Cell)
    ensures
        -9223372036854775808 <= cell_key(cell) < 9223372036854775808,
        key_of(cell) as int == cell_key(cell),
{
    assert(-9223372036854775808 <= cell.q * 4294967296 <= 9223372032559808512) by (nonlinear_arith)
        requires
            -2147483648 <= cell.q <= 2147483647,
    ;
}

/// The key under which the search stores `cell`.
fn search_key(cell: &Cell) -> (key: i64)
    ensures
        key == key_of(*cell),
        key as int == cell_key(*cell),
{
    proof {
        lemma_key_range(*cell);
    }
    (cell.q as i64) * 4294967296i64 + (cell.r as i64 + 2147483648i64)
}

/// Whether all neighbours of `cell` exist.
fn is_inner_cell(cell: &Cell) -> (result: bool)
    ensures
        result == is_inner(*cell),
{
    i32::MIN < cell.q && cell.q < i32::MAX && i32::MIN < cell.r && cell.r < i32::MAX && i32::MIN
        < cell.s && cell.s < i32::MAX
}

/// The distance of two hexagons, computed wide enough for any two hexagons.
fn search_distance(a: &Cell, b: &Cell) -> (distance: i128)
    ensures
        distance == spec_distance(*a, *b),
{
    let dq = a.q as i128 - b.q as i128;
    let dr = a.r as i128 - b.r as i128;
    let ds = a.s as i128 - b.s as i128;
    let aq = if dq < 0 { -dq } else { dq };
    let ar = if dr < 0 { -dr } else { dr };
    let as_ = if ds < 0 { -ds } else { ds };
    (aq + ar + as_) / 2
}

/// The parent recorded for the hexagon under `key`: a hexagon searched
/// before, with a smaller cost, one step from which the hexagon lies, and the
/// hexagon is free of units.
pub open spec fn parent_ok(
    world: WorldState,
    costs: Map<i64, i128>,
    cells: Map<i64, Cell>,
    key: i64,
    parent: Option<Cell>,
) -> bool {
    match parent {
        None => false,
        Some(p) => {
            &&& cells.contains_key(key_of(p))
            &&& cells[key_of(p)] == p
            &&& costs[key_of(p)] < costs[key]
            &&& is_step(p, cells[key])
            &&& !has_unit_at(world, cells[key])
        },
    }
}

/// What the search state keeps: the costs, parents and hexagons of the keys
/// searched, the frontier, and the keys in the order they were found.
pub open spec fn search_state(
    world: WorldState,
    start: Cell,
    costs: Map<i64, i128>,
    parents: Map<i64, Option<Cell>>,
    cells: Map<i64, Cell>,
    frontier: Map<FrontierItem, i128>,
    keys: Seq<i64>,
) -> bool {
    &&& costs.dom() == cells.dom()
    &&& parents.dom() == cells.dom()
    &&& keys.no_duplicates()
    &&& keys.to_set() == cells.dom()
    &&& frontier.dom().finite()
    &&& forall|k: i64| #[trigger]
        cells.contains_key(k) ==> key_of(cells[k]) == k && cell_sum(cells[k]) == cell_sum(start) && 0
            <= costs[k] < keys.len()
    &&& forall|item: FrontierItem| #[trigger]
        frontier.contains_key(item) ==> cells.contains_key(key_of(item_cell(item)))
            && cells[key_of(item_cell(item))] == item_cell(item)
    &&& cells.contains_key(key_of(start))
    &&& cells[key_of(start)] == start
    &&& costs[key_of(start)] == 0
    &&& parents[key_of(start)] == None::<Cell>
    &&& forall|k: i64| #[trigger]
        parents.contains_key(k) && k != key_of(start) ==> parent_ok(world, costs, cells, k, parents[k])
}

/// Whether every free neighbour of `cell` has been searched, when it has neighbours.
pub open spec fn expanded(world: WorldState, cells: Map<i64, Cell>, cell: Cell) -> bool {
    is_inner(cell) ==> forall|j: int|
        0 <= j < 6 && !has_unit_at(world, #[trigger] spec_neighbour(cell, direction_at(j)))
            ==> cells.contains_key(key_of(spec_neighbour(cell, direction_at(j))))
}

/// Every searched hexagon waits in the frontier, or is not the target and has
/// been expanded, or is `current`.
pub open spec fn closed_except(
    world: WorldState,
    target: Cell,
    cells: Map<i64, Cell>,
    frontier: Map<FrontierItem, i128>,
    current: Option<Cell>,
) -> bool {
    forall|k: i64| #[trigger]
        cells.contains_key(k) ==> frontier.contains_key(cell_item(cells[k])) || (cells[k] != target
            && expanded(world, cells, cells[k])) || current == Some(cells[k])
}

/// A searched hexagon that a free path reaches has been searched.
proof fn lemma_path_searched(
    world: WorldState,
    path: Seq<Cell>,
    start: Cell,
    target: Cell,
    cells: Map<i64, Cell>,
    frontier: Map<FrontierItem, i128>,
    i: int,
)
    requires
        is_free_path(world, path, start, target),
        closed_except(world, target, cells, frontier, None),
        frontier.dom().is_empty(),
        cells.contains_key(key_of(start)),
        cells[key_of(start)] == start,
        forall|k: i64| #[trigger]
            cells.contains_key(k) ==> key_of(cells[k]) == k && cell_sum(cells[k]) == cell_sum(start),
        0 <= i < path.len(),
    ensures
        cells.contains_key(key_of(path[i])),
        cells[key_of(path[i])] == path[i],
        cell_sum(path[i]) == cell_sum(start),
    decreases i,
{
    if i > 0 {
        lemma_path_searched(world, path, start, target, cells, frontier, i - 1);
        let prev = path[i - 1];
        let k = key_of(prev);
        let m = i - 1;
        assert(is_step(path[m], path[m + 1]));
        assert(path[m + 1] == path[i]);
        let direction = choose|direction: Direction| path[i] == spec_neighbour(prev, direction);
        lemma_step_keeps_sum(prev, direction);
        assert(!frontier.contains_key(cell_item(cells[k])));
        assert(expanded(world, cells, cells[k]));
        let j = direction_index(direction);
        assert(!has_unit_at(world, path[i]));
        assert(spec_neighbour(prev, direction_at(j)) == path[i]);
        assert(cells.contains_key(key_of(path[i])));
        let other = cells[key_of(path[i])];
        lemma_key_range(other);
        lemma_key_range(path[i]);
        lemma_key_injective(other, path[i]);
    }
}

proof fn lemma_costs_nonnegative(
    world: WorldState,
    start: Cell,
    costs: Map<i64, i128>,
    parents: Map<i64, Option<Cell>>,
    cells: Map<i64, Cell>,
    frontier: Map<FrontierItem, i128>,
    keys: Seq<i64>,
)
    requires
        search_state(world, start, costs, parents, cells, frontier, keys),
    ensures
        sum_costs(keys, costs) >= 0,
        keys.len() <= 18446744073709551616,
{
    assert forall|i: int| 0 <= i < keys.len() implies costs[#[trigger] keys[i]] >= 0 by {
        assert(keys.to_set().contains(keys[i]));
        assert(cells.contains_key(keys[i]));
    }
    lemma_sum_costs_nonnegative(keys, costs);
    lemma_key_set_bound(cells.dom());
    keys.unique_seq_to_set();
}

/// The keys after recording `next` under `next_key`: one more key when it is new.
proof fn lemma_record_keys(
    keys: Seq<i64>,
    costs: Map<i64, i128>,
    cells: Map<i64, Cell>,
    next_key: i64,
    next: Cell,
    new_cost: i128,
) -> (new_keys: Seq<i64>)
    requires
        keys.no_duplicates(),
        keys.to_set() == cells.dom(),
        cells.contains_key(next_key) ==> new_cost < costs[next_key],
    ensures
        new_keys == (if cells.contains_key(next_key) {
            keys
        } else {
            keys.push(next_key)
        }),
        new_keys.no_duplicates(),
        new_keys.to_set() == cells.insert(next_key, next).dom(),
        progressed_sum(keys, costs, new_keys, costs.insert(next_key, new_cost)),
{
    if !cells.contains_key(next_key) {
        let new_keys = keys.push(next_key);
        assert(!keys.contains(next_key));
        lemma_sum_costs_other_key(keys, costs, next_key, new_cost);
        assert(new_keys.drop_last() == keys);
        keys.lemma_push_to_set_commute(next_key);
        assert forall|a: int, b: int|
            0 <= a < new_keys.len() && 0 <= b < new_keys.len() && a != b implies new_keys[a]
            != new_keys[b] by {
            if a == new_keys.len() - 1 {
                assert(keys.contains(new_keys[b]));
            } else if b == new_keys.len() - 1 {
                assert(keys.contains(new_keys[a]));
            }
        }
        new_keys
    } else {
        assert(keys.to_set().contains(next_key));
        lemma_sum_costs_update(keys, costs, next_key, new_cost);
        assert(cells.insert(next_key, next).dom() == cells.dom());
        keys
    }
}

/// The keys grew, or they stayed and the sum of the costs went down.
pub open spec fn progressed_sum(
    keys0: Seq<i64>,
    costs0: Map<i64, i128>,
    keys: Seq<i64>,
    costs: Map<i64, i128>,
) -> bool {
    ||| keys.len() > keys0.len()
    ||| (keys == keys0 && sum_costs(keys, costs) < sum_costs(keys0, costs0))
}

/// Recording `next` over `current` keeps the search state.
#[verifier::rlimit(40)]
proof fn lemma_record_state(
    world: WorldState,
    start: Cell,
    costs: Map<i64, i128>,
    parents: Map<i64, Option<Cell>>,
    cells: Map<i64, Cell>,
    frontier: Map<FrontierItem, i128>,
    keys: Seq<i64>,
    current: Cell,
    next: Cell,
    new_cost: i128,
    priority: i128,
    new_keys: Seq<i64>,
)
    requires
        search_state(world, start, costs, parents, cells, frontier, keys),
        cells.contains_key(key_of(current)),
        cells[key_of(current)] == current,
        new_cost == costs[key_of(current)] + 1,
        is_step(current, next),
        cell_sum(next) == cell_sum(current),
        !has_unit_at(world, next),
        key_of(current) != key_of(next),
        cells.contains_key(key_of(next)) ==> cells[key_of(next)] == next && new_cost < costs[key_of(
            next,
        )],
        new_keys.no_duplicates(),
        new_keys.to_set() == cells.insert(key_of(next), next).dom(),
        new_keys.len() == (if cells.contains_key(key_of(next)) {
            keys.len()
        } else {
            keys.len() + 1
        }),
    ensures
        search_state(
            world,
            start,
            costs.insert(key_of(next), new_cost),
            parents.insert(key_of(next), Some(current)),
            cells.insert(key_of(next), next),
            frontier.insert(cell_item(next), priority),
            new_keys,
        ),
{
    let next_key = key_of(next);
    let costs2 = costs.insert(next_key, new_cost);
    let parents2 = parents.insert(next_key, Some(current));
    let cells2 = cells.insert(next_key, next);
    let frontier2 = frontier.insert(cell_item(next), priority);
    lemma_key_range(next);
    assert(item_cell(cell_item(next)) == next);
    assert(next_key != key_of(start)) by {
        if next_key == key_of(start) {
            assert(costs[key_of(start)] == 0);
        }
    }
    assert forall|k: i64| #[trigger]
        cells2.contains_key(k) implies key_of(cells2[k]) == k && cell_sum(cells2[k]) == cell_sum(start)
        && 0 <= costs2[k] < new_keys.len() by {
        if k != next_key {
            assert(cells.contains_key(k));
        }
    }
    assert forall|it: FrontierItem| #[trigger]
        frontier2.contains_key(it) implies cells2.contains_key(key_of(item_cell(it)))
        && cells2[key_of(item_cell(it))] == item_cell(it) by {
        if it != cell_item(next) {
            assert(frontier.contains_key(it));
        }
    }
    assert forall|k: i64| #[trigger]
        parents2.contains_key(k) && k != key_of(start) implies parent_ok(
        world,
        costs2,
        cells2,
        k,
        parents2[k],
    ) by {
        if k != next_key {
            assert(parents.contains_key(k));
            assert(parent_ok(world, costs, cells, k, parents[k]));
        }
    }
}

/// Recording `next` at `new_cost`, with the priority its cost and distance
/// give, keeps the priorities bounded and lowers no other cost.
proof fn lemma_record_bounds(
    costs: Map<i64, i128>,
    cells: Map<i64, Cell>,
    frontier: Map<FrontierItem, i128>,
    target: Cell,
    next: Cell,
    new_cost: i128,
    priority: i128,
)
    requires
        priorities_bounded(costs, frontier, target),
        forall|item: FrontierItem| #[trigger]
            frontier.contains_key(item) ==> cells.contains_key(key_of(item_cell(item)))
                && cells[key_of(item_cell(item))] == item_cell(item),
        cells.contains_key(key_of(next)) ==> cells[key_of(next)] == next && new_cost < costs[key_of(next)],
        priority == -(new_cost + spec_distance(next, target)),
    ensures
        priorities_bounded(
            costs.insert(key_of(next), new_cost),
            frontier.insert(cell_item(next), priority),
            target,
        ),
        costs_lowered(
            cells,
            costs,
            cells.insert(key_of(next), next),
            costs.insert(key_of(next), new_cost),
            frontier.insert(cell_item(next), priority),
        ),
{
    let costs2 = costs.insert(key_of(next), new_cost);
    let frontier2 = frontier.insert(cell_item(next), priority);
    assert(item_cell(cell_item(next)) == next);
    assert forall|item: FrontierItem| #[trigger] frontier2.contains_key(item) implies -(
    costs2[key_of(item_cell(item))] + spec_distance(item_cell(item), target)) <= frontier2[item]
        <= -costs2[key_of(item_cell(item))] by {
        if item != cell_item(next) {
            assert(frontier.contains_key(item));
            if key_of(item_cell(item)) == key_of(next) {
                assert(item_cell(item) == next);
                assert(item == cell_item(next));
            }
        }
    }
}

/// Lowering costs twice lowers them.
proof fn lemma_costs_lowered_trans(
    cells0: Map<i64, Cell>,
    costs0: Map<i64, i128>,
    cells1: Map<i64, Cell>,
    costs1: Map<i64, i128>,
    frontier1: Map<FrontierItem, i128>,
    cells2: Map<i64, Cell>,
    costs2: Map<i64, i128>,
    frontier2: Map<FrontierItem, i128>,
)
    requires
        costs_lowered(cells0, costs0, cells1, costs1, frontier1),
        costs_lowered(cells1, costs1, cells2, costs2, frontier2),
        forall|k: i64| #[trigger] cells0.contains_key(k) ==> cells1.contains_key(k),
        forall|k: i64| #[trigger]
            cells1.contains_key(k) ==> cells2.contains_key(k) && cells2[k] == cells1[k],
        forall|item: FrontierItem| #[trigger] frontier1.contains_key(item) ==> frontier2.contains_key(item),
    ensures
        costs_lowered(cells0, costs0, cells2, costs2, frontier2),
{
    assert forall|k: i64| #[trigger] cells0.contains_key(k) implies costs2[k] <= costs0[k] && (costs2[k]
        == costs0[k] || frontier2.contains_key(cell_item(cells2[k]))) by {
        assert(cells1.contains_key(k));
        if costs1[k] != costs0[k] {
            assert(frontier1.contains_key(cell_item(cells1[k])));
        }
    }
}

/// After all free neighbours of `current` were searched at a cost of at most
/// one more than its own, every searched hexagon waits in the frontier or has
/// been relaxed.
proof fn lemma_expanded_relaxed(
    world: WorldState,
    cells0: Map<i64, Cell>,
    costs0: Map<i64, i128>,
    frontier0: Map<FrontierItem, i128>,
    cells: Map<i64, Cell>,
    costs: Map<i64, i128>,
    frontier: Map<FrontierItem, i128>,
    current: Cell,
    current_cost: i128,
)
    requires
        relaxed_except(world, cells0, costs0, frontier0, Some(current)),
        kept(cells0, frontier0, cells, frontier),
        costs_lowered(cells0, costs0, cells, costs, frontier),
        forall|k: i64| #[trigger] cells0.contains_key(k) ==> key_of(cells0[k]) == k,
        costs[key_of(current)] == current_cost,
        is_inner(current) ==> forall|i: int|
            0 <= i < 6 && !has_unit_at(world, #[trigger] spec_neighbour(current, direction_at(i)))
                ==> cells.contains_key(key_of(spec_neighbour(current, direction_at(i)))) && costs[key_of(
                spec_neighbour(current, direction_at(i)),
            )] <= current_cost + 1,
    ensures
        relaxed_except(world, cells, costs, frontier, None),
{
    assert forall|k: i64| #[trigger] cells.contains_key(k) implies frontier.contains_key(cell_item(cells[k]))
        || relaxed(world, cells, costs, cells[k]) || None::<Cell> == Some(cells[k]) by {
        if cells0.contains_key(k) {
            assert(cells[k] == cells0[k]);
            if frontier0.contains_key(cell_item(cells0[k])) {
            } else if cells0[k] == current {
            } else if costs[k] == costs0[k] {
                assert(relaxed(world, cells0, costs0, cells0[k]));
                assert forall|i: int|
                    0 <= i < 6 && is_inner(cells[k]) && !has_unit_at(
                        world,
                        #[trigger] spec_neighbour(cells[k], direction_at(i)),
                    ) implies cells.contains_key(key_of(spec_neighbour(cells[k], direction_at(i))))
                    && costs[key_of(spec_neighbour(cells[k], direction_at(i)))] <= costs[key_of(cells[k])]
                    + 1 by {
                    assert(cells0.contains_key(key_of(spec_neighbour(cells0[k], direction_at(i)))));
                }
            }
        }
    }
}

/// Whether the search moved on from the first state to the second: it found
/// more hexagons, or lowered some cost, or else left everything as it was.
pub open spec fn progressed(
    keys0: Seq<i64>,
    costs0: Map<i64, i128>,
    frontier0: Map<FrontierItem, i128>,
    keys: Seq<i64>,
    costs: Map<i64, i128>,
    frontier: Map<FrontierItem, i128>,
) -> bool {
    ||| keys.len() > keys0.len()
    ||| (keys == keys0 && sum_costs(keys, costs) < sum_costs(keys0, costs0))
    ||| (keys == keys0 && sum_costs(keys, costs) == sum_costs(keys0, costs0) && frontier == frontier0)
}

/// Whether the second state keeps all that the first one searched, and every
/// hexagon that waited in the frontier still does.
pub open spec fn kept(
    cells0: Map<i64, Cell>,
    frontier0: Map<FrontierItem, i128>,
    cells: Map<i64, Cell>,
    frontier: Map<FrontierItem, i128>,
) -> bool {
    &&& forall|k: i64| #[trigger] cells0.contains_key(k) ==> cells.contains_key(k) && cells[k] == cells0[k]
    &&& forall|it: FrontierItem| #[trigger] frontier0.contains_key(it) ==> frontier.contains_key(it)
    &&& forall|k: i64| #[trigger]
        cells.contains_key(k) ==> cells0.contains_key(k) || frontier.contains_key(cell_item(cells[k]))
}

/// Whether every free neighbour of `cell` has been searched at a cost of at
/// most one more than the cost of `cell`, when it has neighbours.
pub open spec fn relaxed(world: WorldState, cells: Map<i64, Cell>, costs: Map<i64, i128>, cell: Cell) -> bool {
    is_inner(cell) ==> forall|j: int|
        0 <= j < 6 && !has_unit_at(world, #[trigger] spec_neighbour(cell, direction_at(j)))
            ==> cells.contains_key(key_of(spec_neighbour(cell, direction_at(j)))) && costs[key_of(
            spec_neighbour(cell, direction_at(j)),
        )] <= costs[key_of(cell)] + 1
}

/// Every searched hexagon waits in the frontier, or has been relaxed, or is `current`.
pub open spec fn relaxed_except(
    world: WorldState,
    cells: Map<i64, Cell>,
    costs: Map<i64, i128>,
    frontier: Map<FrontierItem, i128>,
    current: Option<Cell>,
) -> bool {
    forall|k: i64| #[trigger]
        cells.contains_key(k) ==> frontier.contains_key(cell_item(cells[k])) || relaxed(
            world,
            cells,
            costs,
            cells[k],
        ) || current == Some(cells[k])
}

/// The priority of each hexagon in the frontier is at most minus its cost, and
/// at least minus its cost and its distance to `target`.
pub open spec fn priorities_bounded(
    costs: Map<i64, i128>,
    frontier: Map<FrontierItem, i128>,
    target: Cell,
) -> bool {
    forall|item: FrontierItem| #[trigger]
        frontier.contains_key(item) ==> -(costs[key_of(item_cell(item))] + spec_distance(
            item_cell(item),
            target,
        )) <= frontier[item] <= -costs[key_of(item_cell(item))]
}

/// No cost of the first state went up, and a hexagon whose cost went down
/// waits in the frontier.
pub open spec fn costs_lowered(
    cells0: Map<i64, Cell>,
    costs0: Map<i64, i128>,
    cells: Map<i64, Cell>,
    costs: Map<i64, i128>,
    frontier: Map<FrontierItem, i128>,
) -> bool {
    forall|k: i64| #[trigger]
        cells0.contains_key(k) ==> costs[k] <= costs0[k] && (costs[k] == costs0[k]
            || frontier.contains_key(cell_item(cells[k])))
}

/// The cost recorded for `target` is at most the number of steps of any free
/// path from `start` to `target`.
pub open spec fn cost_is_least(world: WorldState, costs: Map<i64, i128>, start: Cell, target: Cell) -> bool {
    forall|other: Seq<Cell>| #[trigger]
        is_free_path(world, other, start, target) ==> costs[key_of(target)] <= other.len() - 1
}

/// Every hexagon of a free path has the coordinate sum of its start.
proof fn lemma_path_sum(world: WorldState, path: Seq<Cell>, start: Cell, target: Cell, i: int)
    requires
        is_free_path(world, path, start, target),
        0 <= i < path.len(),
    ensures
        cell_sum(path[i]) == cell_sum(start),
    decreases i,
{
    if i > 0 {
        lemma_path_sum(world, path, start, target, i - 1);
        let m = i - 1;
        assert(is_step(path[m], path[m + 1]));
        let direction = choose|direction: Direction| path[i] == spec_neighbour(path[m], direction);
        lemma_step_keeps_sum(path[m], direction);
    }
}

/// Along a free path, the hexagon distance to its end is at most the number of
/// steps that are left.
proof fn lemma_path_distance(world: WorldState, path: Seq<Cell>, start: Cell, target: Cell, i: int)
    requires
        is_free_path(world, path, start, target),
        0 <= i < path.len(),
    ensures
        spec_distance(path[i], target) <= path.len() - 1 - i,
    decreases path.len() - i,
{
    if i < path.len() - 1 {
        lemma_path_distance(world, path, start, target, i + 1);
        let a = path[i];
        let b = path[i + 1];
        assert(is_step(a, b));
        let direction = choose|direction: Direction| b == spec_neighbour(a, direction);
        lemma_neighbour_step(a, direction);
        lemma_path_sum(world, path, start, target, i);
        lemma_path_sum(world, path, start, target, i + 1);
        lemma_path_sum(world, path, start, target, path.len() - 1);
        lemma_cube_triangle(a.q - b.q, a.r - b.r, a.s - b.s, b.q - target.q, b.r - target.r, b.s - target.s);
    }
}

/// Walking a free path from its start: some hexagon `path[j]`, `j <= i`, has
/// been searched at a cost of at most `j`, and it is `path[i]` or waits in
/// the frontier.
proof fn lemma_path_reached(
    world: WorldState,
    start: Cell,
    target: Cell,
    costs: Map<i64, i128>,
    parents: Map<i64, Option<Cell>>,
    cells: Map<i64, Cell>,
    frontier: Map<FrontierItem, i128>,
    keys: Seq<i64>,
    path: Seq<Cell>,
    i: int,
) -> (j: int)
    requires
        search_state(world, start, costs, parents, cells, frontier, keys),
        relaxed_except(world, cells, costs, frontier, None),
        is_free_path(world, path, start, target),
        0 <= i < path.len(),
    ensures
        0 <= j <= i,
        cells.contains_key(key_of(path[j])),
        costs[key_of(path[j])] <= j,
        j == i || frontier.contains_key(cell_item(path[j])),
    decreases i,
{
    if i == 0 {
        0
    } else {
        let j = lemma_path_reached(world, start, target, costs, parents, cells, frontier, keys, path, i - 1);
        if j < i - 1 || frontier.contains_key(cell_item(path[j])) {
            j
        } else {
            let m = i - 1;
            let prev = path[m];
            let k = key_of(prev);
            lemma_path_sum(world, path, start, target, m);
            lemma_path_sum(world, path, start, target, i);
            let other = cells[k];
            lemma_key_range(other);
            lemma_key_range(prev);
            lemma_key_injective(other, prev);
            assert(is_step(path[m], path[m + 1]));
            let direction = choose|direction: Direction| path[i] == spec_neighbour(prev, direction);
            lemma_step_keeps_sum(prev, direction);
            assert(relaxed(world, cells, costs, cells[k]));
            let d = direction_index(direction);
            assert(!has_unit_at(world, path[i]));
            assert(spec_neighbour(prev, direction_at(d)) == path[i]);
            i
        }
    }
}

/// When the target is taken from the frontier as an item of greatest
/// priority, its cost is at most the number of steps of any free path to it.
proof fn lemma_target_cost_least(
    world: WorldState,
    start: Cell,
    target: Cell,
    costs: Map<i64, i128>,
    parents: Map<i64, Option<Cell>>,
    cells: Map<i64, Cell>,
    frontier: Map<FrontierItem, i128>,
    keys: Seq<i64>,
    path: Seq<Cell>,
)
    requires
        search_state(world, start, costs, parents, cells, frontier, keys),
        relaxed_except(world, cells, costs, frontier, None),
        priorities_bounded(costs, frontier, target),
        frontier.contains_key(cell_item(target)),
        forall|other: FrontierItem| #[trigger]
            frontier.contains_key(other) ==> frontier[other] <= frontier[cell_item(target)],
        is_free_path(world, path, start, target),
    ensures
        costs[key_of(target)] <= path.len() - 1,
{
    let last = path.len() - 1;
    let j = lemma_path_reached(world, start, target, costs, parents, cells, frontier, keys, path, last);
    assert(item_cell(cell_item(target)) == target);
    if j < last {
        let item = cell_item(path[j]);
        assert(item_cell(item) == path[j]);
        lemma_path_distance(world, path, start, target, j);
        assert(frontier[item] <= frontier[cell_item(target)]);
    }
}

/// The state of a path search.
struct Search {
    frontier: Frontier,
    came_from: HashMap<i64, Option<Cell>>,
    cost_so_far: HashMap<i64, i128>,
    cells: Ghost<Map<i64, Cell>>,
    keys: Ghost<Seq<i64>>,
}

impl Search {
    spec fn inv(&self, world: WorldState, start: Cell) -> bool {
        search_state(
            world,
            start,
            self.cost_so_far@,
            self.came_from@,
            self.cells@,
            frontier_contents(self.frontier),
            self.keys@,
        )
    }

    spec fn closed(&self, world: WorldState, target: Cell, current: Option<Cell>) -> bool {
        closed_except(world, target, self.cells@, frontier_contents(self.frontier), current)
    }

    /// A search that starts at `start`.
    fn new(start: &Cell, world: &World) -> (search: Search)
        ensures
            search.inv(world@, *start),
            search.keys@.len() == 1,
            forall|target: Cell| #[trigger] search.closed(world@, target, None),
            forall|target: Cell| #[trigger]
                priorities_bounded(search.cost_so_far@, frontier_contents(search.frontier), target),
            relaxed_except(world@, search.cells@, search.cost_so_far@, frontier_contents(search.frontier), None),
    {
        let mut frontier = frontier_new();
        frontier_push(&mut frontier, (start.q, start.r, start.s), 0);
        let mut came_from: HashMap<i64, Option<Cell>> = HashMap::new();
        let mut cost_so_far: HashMap<i64, i128> = HashMap::new();
        let start_key = search_key(start);
        came_from.insert(start_key, None);
        cost_so_far.insert(start_key, 0);
        let ghost cells: Map<i64, Cell> = Map::empty().insert(start_key, *start);
        let ghost keys: Seq<i64> = seq![start_key];
        proof {
            assert(keys.to_set() == cells.dom()) by {
                assert(keys.to_set().contains(start_key)) by {
                    assert(keys[0] == start_key);
                }
            }
            lemma_key_range(*start);
            assert(item_cell((start.q, start.r, start.s)) == *start);
            assert(cell_item(*start) == (start.q, start.r, start.s));
        }
        Search { frontier, came_from, cost_so_far, cells: Ghost(cells), keys: Ghost(keys) }
    }

    /// Records `next`, a free neighbour of the searched hexagon `current`,
    /// when reaching it over `current` costs less than any way known so far.
    fn relax(
        &mut self,
        world: &World,
        start: &Cell,
        target: &Cell,
        current: &Cell,
        current_key: i64,
        current_cost: i128,
        next: &Cell,
        direction: Ghost<Direction>,
    )
        requires
            world.wf(),
            old(self).inv(world@, *start),
            is_inner(*current),
            current_key == key_of(*current),
            old(self).cells@.contains_key(current_key),
            old(self).cells@[current_key] == *current,
            old(self).cost_so_far@[current_key] == current_cost,
            *next == spec_neighbour(*current, direction@),
            !has_unit_at(world@, *next),
            priorities_bounded(old(self).cost_so_far@, frontier_contents(old(self).frontier), *target),
        ensures
            final(self).inv(world@, *start),
            final(self).cells@.contains_key(key_of(*next)),
            final(self).cost_so_far@[current_key] == current_cost,
            final(self).cost_so_far@[key_of(*next)] <= current_cost + 1,
            priorities_bounded(final(self).cost_so_far@, frontier_contents(final(self).frontier), *target),
            costs_lowered(
                old(self).cells@,
                old(self).cost_so_far@,
                final(self).cells@,
                final(self).cost_so_far@,
                frontier_contents(final(self).frontier),
            ),
            kept(
                old(self).cells@,
                frontier_contents(old(self).frontier),
                final(self).cells@,
                frontier_contents(final(self).frontier),
            ),
            final(self).keys@.len() >= old(self).keys@.len(),
            progressed(
                old(self).keys@,
                old(self).cost_so_far@,
                frontier_contents(old(self).frontier),
                final(self).keys@,
                final(self).cost_so_far@,
                frontier_contents(final(self).frontier),
            ),
    {
        proof {
            lemma_step_keeps_sum(*current, direction@);
            lemma_key_range(*next);
            lemma_costs_nonnegative(
                world@,
                *start,
                self.cost_so_far@,
                self.came_from@,
                self.cells@,
                frontier_contents(self.frontier),
                self.keys@,
            );
            self.keys@.unique_seq_to_set();
        }
        let new_cost = current_cost + 1;
        let next_key = search_key(next);
        let known = match self.cost_so_far.get(&next_key) {
            None => None,
            Some(cost) => Some(*cost),
        };
        let better = match known {
            None => true,
            Some(cost) => new_cost < cost,
        };
        if better {
            proof {
                if self.cells@.contains_key(next_key) {
                    lemma_key_range(self.cells@[next_key]);
                    lemma_key_injective(self.cells@[next_key], *next);
                }
                assert(key_of(*current) != next_key) by {
                    if key_of(*current) == next_key {
                        lemma_key_range(*current);
                        lemma_key_injective(*current, *next);
                    }
                }
                assert(is_step(*current, *next));
            }
            let ghost old_costs = self.cost_so_far@;
            let ghost old_parents = self.came_from@;
            let ghost old_cells = self.cells@;
            let ghost old_keys = self.keys@;
            let ghost old_frontier = frontier_contents(self.frontier);
            self.cost_so_far.insert(next_key, new_cost);
            let priority = -(new_cost + search_distance(next, target));
            frontier_push(&mut self.frontier, (next.q, next.r, next.s), priority);
            self.came_from.insert(next_key, Some(*current));
            proof {
                self.keys@ = lemma_record_keys(old_keys, old_costs, old_cells, next_key, *next, new_cost);
                lemma_record_state(
                    world@,
                    *start,
                    old_costs,
                    old_parents,
                    old_cells,
                    old_frontier,
                    old_keys,
                    *current,
                    *next,
                    new_cost,
                    priority,
                    self.keys@,
                );
                lemma_record_bounds(old_costs, old_cells, old_frontier, *target, *next, new_cost, priority);
                self.cells@ = old_cells.insert(next_key, *next);
            }
        }
    }

    /// Searches the free neighbours of `current`, which was just taken from
    /// the frontier and is not the target.
    fn expand(&mut self, world: &World, start: &Cell, target: &Cell, current: &Cell)
        requires
            world.wf(),
            old(self).inv(world@, *start),
            *current != *target,
            old(self).cells@.contains_key(key_of(*current)),
            old(self).cells@[key_of(*current)] == *current,
            old(self).closed(world@, *target, Some(*current)),
            priorities_bounded(old(self).cost_so_far@, frontier_contents(old(self).frontier), *target),
            relaxed_except(
                world@,
                old(self).cells@,
                old(self).cost_so_far@,
                frontier_contents(old(self).frontier),
                Some(*current),
            ),
        ensures
            final(self).inv(world@, *start),
            final(self).closed(world@, *target, None),
            priorities_bounded(final(self).cost_so_far@, frontier_contents(final(self).frontier), *target),
            relaxed_except(
                world@,
                final(self).cells@,
                final(self).cost_so_far@,
                frontier_contents(final(self).frontier),
                None,
            ),
            final(self).keys@.len() >= old(self).keys@.len(),
            progressed(
                old(self).keys@,
                old(self).cost_so_far@,
                frontier_contents(old(self).frontier),
                final(self).keys@,
                final(self).cost_so_far@,
                frontier_contents(final(self).frontier),
            ),
    {
        if !is_inner_cell(current) {
            proof {
                assert forall|k: i64| #[trigger]
                    self.cells@.contains_key(k) implies frontier_contents(self.frontier).contains_key(
                    cell_item(self.cells@[k]),
                ) || (self.cells@[k] != *target && expanded(world@, self.cells@, self.cells@[k]))
                    || None::<Cell> == Some(self.cells@[k]) by {
                    assert(old(self).closed(world@, *target, Some(*current)));
                }
                assert forall|k: i64| #[trigger]
                    self.cells@.contains_key(k) implies frontier_contents(self.frontier).contains_key(
                    cell_item(self.cells@[k]),
                ) || relaxed(world@, self.cells@, self.cost_so_far@, self.cells@[k]) || None::<Cell> == Some(
                    self.cells@[k],
                ) by {}
            }
            return;
        }
        let current_key = search_key(current);
        let current_cost = match self.cost_so_far.get(&current_key) {
            Some(cost) => *cost,
            None => {
                proof {
                    assert(false);
                }
                0
            },
        };
        let neighbours = GameWorld::get_neighbours(current);
        let ghost keys0 = self.keys@;
        let ghost costs0 = self.cost_so_far@;
        let ghost frontier0 = frontier_contents(self.frontier);
        let ghost cells0 = self.cells@;
        let mut j: usize = 0;
        while j < 6
            invariant
                world.wf(),
                0 <= j <= 6,
                is_inner(*current),
                *current != *target,
                current_key == key_of(*current),
                cells0.contains_key(current_key),
                cells0[current_key] == *current,
                self.cost_so_far@[current_key] == current_cost,
                neighbours@.len() == 6,
                forall|i: int| 0 <= i < 6 ==> neighbours@[i] == spec_neighbour(*current, direction_at(i)),
                self.inv(world@, *start),
                closed_except(world@, *target, cells0, frontier0, Some(*current)),
                kept(cells0, frontier0, self.cells@, frontier_contents(self.frontier)),
                forall|i: int|
                    0 <= i < j && !has_unit_at(world@, #[trigger] spec_neighbour(*current, direction_at(i)))
                        ==> self.cells@.contains_key(key_of(spec_neighbour(*current, direction_at(i))))
                        && self.cost_so_far@[key_of(spec_neighbour(*current, direction_at(i)))]
                        <= current_cost + 1,
                priorities_bounded(self.cost_so_far@, frontier_contents(self.frontier), *target),
                relaxed_except(world@, cells0, costs0, frontier0, Some(*current)),
                costs_lowered(cells0, costs0, self.cells@, self.cost_so_far@, frontier_contents(self.frontier)),
                self.keys@.len() >= keys0.len(),
                progressed(
                    keys0,
                    costs0,
                    frontier0,
                    self.keys@,
                    self.cost_so_far@,
                    frontier_contents(self.frontier),
                ),
            decreases 6 - j,
        {
            let next = neighbours[j];
            if !unit_at_hexagon(&next, world) {
                let ghost keys1 = self.keys@;
                let ghost costs1 = self.cost_so_far@;
                let ghost frontier1 = frontier_contents(self.frontier);
                let ghost cells1 = self.cells@;
                self.relax(
                    world,
                    start,
                    target,
                    current,
                    current_key,
                    current_cost,
                    &next,
                    Ghost(direction_at(j as int)),
                );
                proof {
                    lemma_costs_lowered_trans(
                        cells0,
                        costs0,
                        cells1,
                        costs1,
                        frontier1,
                        self.cells@,
                        self.cost_so_far@,
                        frontier_contents(self.frontier),
                    );
                    assert(kept(cells0, frontier0, self.cells@, frontier_contents(self.frontier))) by {
                        assert forall|k: i64| #[trigger]
                            self.cells@.contains_key(k) implies cells0.contains_key(k)
                            || frontier_contents(self.frontier).contains_key(cell_item(self.cells@[k])) by {
                            if !cells1.contains_key(k) {
                            } else if !cells0.contains_key(k) {
                                assert(frontier1.contains_key(cell_item(cells1[k])));
                            }
                        }
                    }
                    assert forall|i: int|
                        0 <= i <= j && !has_unit_at(
                            world@,
                            #[trigger] spec_neighbour(*current, direction_at(i)),
                        ) implies self.cells@.contains_key(key_of(spec_neighbour(*current, direction_at(i))))
                        && self.cost_so_far@[key_of(spec_neighbour(*current, direction_at(i)))]
                        <= current_cost + 1 by {
                        if i < j {
                            assert(cells1.contains_key(key_of(spec_neighbour(*current, direction_at(i)))));
                        }
                    }
                }
            }
            j = j + 1;
        }
        proof {
            lemma_expanded_relaxed(
                world@,
                cells0,
                costs0,
                frontier0,
                self.cells@,
                self.cost_so_far@,
                frontier_contents(self.frontier),
                *current,
                current_cost,
            );
            assert forall|k: i64| #[trigger]
                self.cells@.contains_key(k) implies frontier_contents(self.frontier).contains_key(
                cell_item(self.cells@[k]),
            ) || (self.cells@[k] != *target && expanded(world@, self.cells@, self.cells@[k]))
                || None::<Cell> == Some(self.cells@[k]) by {
                if cells0.contains_key(k) {
                    assert(self.cells@[k] == cells0[k]);
                    if frontier0.contains_key(cell_item(cells0[k])) {
                    } else if cells0[k] == *current {
                        assert forall|i: int|
                            0 <= i < 6 && !has_unit_at(
                                world@,
                                #[trigger] spec_neighbour(self.cells@[k], direction_at(i)),
                            ) implies self.cells@.contains_key(
                            key_of(spec_neighbour(self.cells@[k], direction_at(i))),
                        ) by {}
                    } else {
                        assert(expanded(world@, cells0, cells0[k]));
                        assert forall|i: int|
                            0 <= i < 6 && is_inner(self.cells@[k]) && !has_unit_at(
                                world@,
                                #[trigger] spec_neighbour(self.cells@[k], direction_at(i)),
                            ) implies self.cells@.contains_key(
                            key_of(spec_neighbour(self.cells@[k], direction_at(i))),
                        ) by {
                            assert(cells0.contains_key(key_of(spec_neighbour(cells0[k], direction_at(i)))));
                        }
                    }
                }
            }
        }
    }
}

/// Taking `item`, the hexagon `current`, from the frontier leaves every other
/// searched hexagon as it was: waiting, expanded, or relaxed.
proof fn lemma_popped(
    world: WorldState,
    target: Cell,
    cells: Map<i64, Cell>,
    costs: Map<i64, i128>,
    frontier0: Map<FrontierItem, i128>,
    frontier: Map<FrontierItem, i128>,
    item: FrontierItem,
)
    requires
        closed_except(world, target, cells, frontier0, None),
        relaxed_except(world, cells, costs, frontier0, None),
        priorities_bounded(costs, frontier0, target),
        frontier == frontier0.remove(item),
        frontier0.contains_key(item),
        frontier0.dom().finite(),
    ensures
        closed_except(world, target, cells, frontier, Some(item_cell(item))),
        relaxed_except(world, cells, costs, frontier, Some(item_cell(item))),
        priorities_bounded(costs, frontier, target),
        frontier.dom().len() < frontier0.dom().len(),
{
    assert(frontier.dom() == frontier0.dom().remove(item));
    assert forall|k: i64| #[trigger] cells.contains_key(k) implies frontier.contains_key(cell_item(cells[k]))
        || (cells[k] != target && expanded(world, cells, cells[k])) || Some(item_cell(item)) == Some(
        cells[k],
    ) by {
        if cells[k] != item_cell(item) {
            assert(cell_item(cells[k]) != item);
        }
    }
    assert forall|k: i64| #[trigger] cells.contains_key(k) implies frontier.contains_key(cell_item(cells[k]))
        || relaxed(world, cells, costs, cells[k]) || Some(item_cell(item)) == Some(cells[k]) by {
        if cells[k] != item_cell(item) {
            assert(cell_item(cells[k]) != item);
        }
    }
}

impl GameWorld {

/// Finds a path from `start` to `target` that steps only on hexagons without
/// units, searching with the hexagon distance to `target` as estimate. The
/// path starts with `start` and ends with `target`. It is empty when a unit
/// stands on `target`, when `start` is `target`, and when no such path exists.
pub fn find_path(start: &Cell, target: &Cell, world: &World) -> (path: Vec<Cell>)
    requires
        world.wf(),
    ensures
        is_search_result(world@, path@, *start, *target),
{
    if unit_at_hexagon(target, world) {
        return Vec::new();
    }
    let mut search = Search::new(start, world);
    let mut found = false;
    assert(search.closed(world@, *target, None));
    assert(priorities_bounded(search.cost_so_far@, frontier_contents(search.frontier), *target));
    while !frontier_is_empty(&search.frontier)
        invariant_except_break
            !found,
            search.closed(world@, *target, None),
            relaxed_except(world@, search.cells@, search.cost_so_far@, frontier_contents(search.frontier), None),
        invariant
            world.wf(),
            search.inv(world@, *start),
            priorities_bounded(search.cost_so_far@, frontier_contents(search.frontier), *target),
            found ==> search.cells@.contains_key(key_of(*target)) && search.cells@[key_of(*target)]
                == *target,
            found ==> cost_is_least(world@, search.cost_so_far@, *start, *target),
        ensures
            found || frontier_contents(search.frontier).dom().is_empty(),
            !found ==> search.closed(world@, *target, None),
        decreases 18446744073709551616 - search.keys@.len(), sum_costs(
            search.keys@,
            search.cost_so_far@,
        ), frontier_contents(search.frontier).dom().len(),
    {
        proof {
            lemma_costs_nonnegative(
                world@,
                *start,
                search.cost_so_far@,
                search.came_from@,
                search.cells@,
                frontier_contents(search.frontier),
                search.keys@,
            );
        }
        let ghost frontier0 = frontier_contents(search.frontier);
        let popped = frontier_pop(&mut search.frontier);
        let item = match popped {
            Some((item, _)) => item,
            None => {
                break;
            },
        };
        let current = Cell::new_cube(item.0, item.1, item.2);
        assert(current == item_cell(item));
        if current == *target {
            proof {
                assert(item == cell_item(*target));
                assert forall|other: Seq<Cell>| #[trigger]
                    is_free_path(world@, other, *start, *target) implies search.cost_so_far@[key_of(
                    *target,
                )] <= other.len() - 1 by {
                    lemma_target_cost_least(
                        world@,
                        *start,
                        *target,
                        search.cost_so_far@,
                        search.came_from@,
                        search.cells@,
                        frontier0,
                        search.keys@,
                        other,
                    );
                }
            }
            found = true;
            break;
        }
        proof {
            lemma_popped(
                world@,
                *target,
                search.cells@,
                search.cost_so_far@,
                frontier0,
                frontier_contents(search.frontier),
                item,
            );
        }
        search.expand(world, start, target, &current);
        proof {
            lemma_costs_nonnegative(
                world@,
                *start,
                search.cost_so_far@,
                search.came_from@,
                search.cells@,
                frontier_contents(search.frontier),
                search.keys@,
            );
        }
    }
    if !found {
        proof {
            if path_exists(world@, *start, *target) && *start != *target {
                let p = choose|p: Seq<Cell>| is_free_path(world@, p, *start, *target);
                lemma_path_searched(
                    world@,
                    p,
                    *start,
                    *target,
                    search.cells@,
                    frontier_contents(search.frontier),
                    p.len() - 1,
                );
                let k = key_of(*target);
                assert(search.cells@[k] == *target);
            }
        }
        return Vec::new();
    }
    search.trace_back(world, start, target)
}

}

/// Putting a free hexagon one step before a free path of steps keeps it one.
proof fn lemma_prepend_step(world: WorldState, old_path: Seq<Cell>, current: Cell, path: Seq<Cell>)
    requires
        old_path.len() >= 1,
        path == seq![current] + old_path,
        is_step(current, old_path[0]),
        !has_unit_at(world, current),
        forall|i: int| 0 <= i < old_path.len() - 1 ==> #[trigger] is_step(old_path[i], old_path[i + 1]),
        forall|i: int| 0 <= i < old_path.len() ==> !has_unit_at(world, #[trigger] old_path[i]),
    ensures
        path.len() == old_path.len() + 1,
        path[0] == current,
        path.last() == old_path.last(),
        forall|i: int| 0 <= i < path.len() - 1 ==> #[trigger] is_step(path[i], path[i + 1]),
        forall|i: int| 0 <= i < path.len() ==> !has_unit_at(world, #[trigger] path[i]),
{
    assert forall|i: int| 0 <= i < path.len() - 1 implies #[trigger] is_step(path[i], path[i + 1]) by {
        if i > 0 {
            assert(path[i] == old_path[i - 1]);
            assert(path[i + 1] == old_path[(i - 1) + 1]);
        }
    }
    assert forall|i: int| 0 <= i < path.len() implies !has_unit_at(world, #[trigger] path[i]) by {
        if i > 0 {
            assert(path[i] == old_path[i - 1]);
        }
    }
}

impl Search {
    /// The path to `target`, which was found, read back over the recorded parents.
    #[verifier::spinoff_prover]
    #[verifier::rlimit(40)]
    fn trace_back(&self, world: &World, start: &Cell, target: &Cell) -> (path: Vec<Cell>)
        requires
            world.wf(),
            self.inv(world@, *start),
            self.cells@.contains_key(key_of(*target)),
            self.cells@[key_of(*target)] == *target,
        ensures
            *start == *target ==> path@.len() == 0,
            *start != *target ==> is_free_path(world@, path@, *start, *target),
            *start != *target ==> path@.len() <= self.cost_so_far@[key_of(*target)] + 1,
    {
        let target_key = search_key(target);
        let first = match self.came_from.get(&target_key) {
            Some(parent) => *parent,
            None => {
                proof {
                    assert(false);
                }
                None
            },
        };
        let mut current = match first {
            None => {
                proof {
                    if *start != *target {
                        lemma_key_range(*target);
                        lemma_key_range(*start);
                        lemma_key_injective(*target, *start);
                    }
                }
                return Vec::new();
            },
            Some(hexagon) => hexagon,
        };
        proof {
            assert(target_key != key_of(*start));
            assert(parent_ok(world@, self.cost_so_far@, self.cells@, target_key, self.came_from@[target_key]));
        }
        let mut path: Vec<Cell> = Vec::new();
        path.insert(0, *target);
        while current != *start
            invariant
                world.wf(),
                self.inv(world@, *start),
                self.cells@.contains_key(key_of(current)),
                self.cells@[key_of(current)] == current,
                path@.len() >= 1,
                path@.len() + self.cost_so_far@[key_of(current)] <= self.cost_so_far@[key_of(*target)],
                path@.last() == *target,
                is_step(current, path@[0]),
                forall|i: int| 0 <= i < path@.len() - 1 ==> #[trigger] is_step(path@[i], path@[i + 1]),
                forall|i: int| 0 <= i < path@.len() ==> !has_unit_at(world@, #[trigger] path@[i]),
                !has_unit_at(world@, path@[0]),
            decreases self.cost_so_far@[key_of(current)],
        {
            let ghost old_path = path@;
            path.insert(0, current);
            let current_key = search_key(&current);
            proof {
                if current_key == key_of(*start) {
                    lemma_key_range(current);
                    lemma_key_range(*start);
                    lemma_key_injective(current, *start);
                }
                assert(parent_ok(world@, self.cost_so_far@, self.cells@, current_key, self.came_from@[current_key]));
                assert(path@ == seq![current] + old_path);
                lemma_prepend_step(world@, old_path, current, path@);
            }
            current = match self.came_from.get(&current_key) {
                Some(Some(parent)) => *parent,
                _ => {
                    proof {
                        assert(false);
                    }
                    current
                },
            };
        }
        let ghost old_path = path@;
        path.insert(0, *start);
        proof {
            assert(path@ == seq![*start] + old_path);
            assert forall|i: int| 0 <= i < path@.len() - 1 implies #[trigger] is_step(path@[i], path@[i + 1]) by {
                if i > 0 {
                    assert(path@[i] == old_path[i - 1]);
                    assert(path@[i + 1] == old_path[(i - 1) + 1]);
                }
            }
            assert forall|i: int| 1 <= i < path@.len() implies !has_unit_at(world@, #[trigger] path@[i]) by {
                assert(path@[i] == old_path[i - 1]);
            }
        }
        path
    }
}

/// The world after the units of an attack were written back: the attacker
/// gets its new values; the defender is removed when its integrity is spent,
/// and gets its new values otherwise.
pub open spec fn spec_handle_attack_result(
    world: WorldState,
    attacker: Entity,
    defender: Entity,
    result: AttackResult,
) -> WorldState {
    let after_attacker = with_components(
        world,
        attacker,
        Components { unit: Some(result.attacker), ..components_of(world, attacker) },
    );
    if result.defender.integrity <= 0 {
        if alive(after_attacker, defender) {
            without_entity(after_attacker, defender)
        } else {
            after_attacker
        }
    } else {
        with_components(
            after_attacker,
            defender,
            Components { unit: Some(result.defender), ..components_of(after_attacker, defender) },
        )
    }
}

/// Whether `entity` lives and carries a unit and a hexagon.
pub open spec fn is_placed_unit(world: WorldState, entity: Entity) -> bool {
    &&& alive(world, entity)
    &&& components_of(world, entity).unit is Some
    &&& components_of(world, entity).cell is Some
}

/// Whether moving the placed unit `entity` to `hexagon` stays inside `i32` arithmetic.
pub open spec fn move_fits(world: WorldState, entity: Entity, hexagon: Cell) -> bool {
    &&& cells_distance_fits(components_of(world, entity).cell->0, hexagon)
    &&& axial_fits(hexagon.q, hexagon.r)
}

/// The world after `entity` tried to walk to `hexagon`: when its remaining
/// range covers the distance, it stands on `hexagon` (with `s` made from `q`
/// and `r`) and keeps the rest of its range; otherwise nothing changes.
pub open spec fn spec_move_entity(world: WorldState, entity: Entity, hexagon: Cell) -> WorldState {
    let components = components_of(world, entity);
    let unit = components.unit->0;
    let from = components.cell->0;
    match spec_can_move(unit.remaining_range, spec_distance(from, hexagon) as i32) {
        CanMove::Yes(remaining_range) => with_components(
            world,
            entity,
            Components {
                cell: Some(Cell { q: hexagon.q, r: hexagon.r, s: (-hexagon.q - hexagon.r) as i32 }),
                unit: Some(Unit { remaining_range, ..unit }),
                ..components
            },
        ),
        CanMove::No => world,
    }
}

/// A unit at the start of a round: one attack, and its full mobility to walk.
pub open spec fn refreshed(components: Components) -> Components {
    match components.unit {
        Some(unit) => Components {
            unit: Some(Unit { remaining_attacks: 1, remaining_range: unit.mobility, ..unit }),
            ..components
        },
        None => components,
    }
}

/// Starting a second round right after the first changes nothing more: the
/// refreshed values of a unit are refreshed already.
pub proof fn lemma_new_round_idempotent(components: Components)
    ensures
        refreshed(refreshed(components)) == refreshed(components),
{
}

/// Writing back an attack gives the attacker the unit the attack left it
/// with, whatever became of the defender; a defender whose integrity is
/// spent is gone, and one that holds out keeps its hexagon and gets the unit
/// the attack left it with.
pub proof fn lemma_attack_written_back(
    world: WorldState,
    attacker: Entity,
    defender: Entity,
    result: AttackResult,
)
    requires
        world.order.no_duplicates(),
        alive(world, attacker),
        attacker != defender,
    ensures
        ({
            let after = spec_handle_attack_result(world, attacker, defender, result);
            &&& alive(after, attacker)
            &&& components_of(after, attacker).unit == Some(result.attacker)
            &&& components_of(after, attacker).cell == components_of(world, attacker).cell
            &&& result.defender.integrity <= 0 ==> !alive(after, defender)
            &&& result.defender.integrity > 0 && alive(world, defender) ==> {
                &&& alive(after, defender)
                &&& components_of(after, defender).unit == Some(result.defender)
                &&& components_of(after, defender).cell == components_of(world, defender).cell
            }
        }),
{
    let marked = with_components(
        world,
        attacker,
        Components { unit: Some(result.attacker), ..components_of(world, attacker) },
    );
    assert(attacker.index != defender.index);
    if result.defender.integrity <= 0 && alive(marked, defender) {
        crate::world::lemma_deleted_entity_is_gone(marked, defender, attacker);
    }
}

/// A unit is moved and charged by the hexagon distance to the target, half
/// the sum of the three coordinate differences: when that distance is
/// positive and within its remaining range it stands on the target and has
/// that much less range left, and otherwise nothing changes.
pub proof fn lemma_move_charges_hexagon_distance(world: WorldState, entity: Entity, hexagon: Cell)
    requires
        is_placed_unit(world, entity),
        move_fits(world, entity, hexagon),
    ensures
        ({
            let unit = components_of(world, entity).unit->0;
            let from = components_of(world, entity).cell->0;
            let distance = (abs(from.q - hexagon.q) + abs(from.r - hexagon.r) + abs(from.s - hexagon.s)) / 2;
            let after = spec_move_entity(world, entity, hexagon);
            &&& 0 < distance <= unit.remaining_range ==> {
                &&& after.order == world.order
                &&& components_of(after, entity).cell == Some(
                    Cell { q: hexagon.q, r: hexagon.r, s: (-hexagon.q - hexagon.r) as i32 },
                )
                &&& components_of(after, entity).unit->0.remaining_range == unit.remaining_range
                    - distance
                &&& components_of(after, entity).unit->0.mobility == unit.mobility
                &&& components_of(after, entity).unit->0.remaining_attacks == unit.remaining_attacks
                &&& components_of(after, entity).unit->0.integrity == unit.integrity
            }
            &&& !(0 < distance <= unit.remaining_range) ==> after == world
        }),
{
}

/// A unit with range left steps onto any of the six neighbours of its
/// hexagon and pays exactly one for it.
pub proof fn lemma_step_to_neighbour(world: WorldState, entity: Entity, direction: Direction)
    requires
        is_placed_unit(world, entity),
        is_inner(components_of(world, entity).cell->0),
        (components_of(world, entity).cell->0).q + (components_of(world, entity).cell->0).r + (
        components_of(world, entity).cell->0).s == 0,
        components_of(world, entity).unit->0.remaining_range >= 1,
    ensures
        ({
            let from = components_of(world, entity).cell->0;
            let after = spec_move_entity(world, entity, spec_neighbour(from, direction));
            &&& components_of(after, entity).cell == Some(spec_neighbour(from, direction))
            &&& components_of(after, entity).unit->0.remaining_range == components_of(
                world,
                entity,
            ).unit->0.remaining_range - 1
        }),
{
    let from = components_of(world, entity).cell->0;
    crate::components::cell::lemma_neighbour_step(from, direction);
}

/// At the start of a round every unit has one attack and as much range as
/// its mobility, and keeps all its other values; entities without a unit
/// stay as they were.
pub proof fn lemma_new_round_refills(components: Components)
    ensures
        components.unit is None ==> refreshed(components) == components,
        components.unit matches Some(unit) ==> {
            let after = refreshed(components).unit->0;
            &&& refreshed(components).unit is Some
            &&& after.remaining_attacks == 1
            &&& after.remaining_range == unit.mobility
            &&& after.integrity == unit.integrity
            &&& after.damage == unit.damage
            &&& after.max_attack_range == unit.max_attack_range
            &&& after.min_attack_range == unit.min_attack_range
            &&& after.armor == unit.armor
            &&& after.mobility == unit.mobility
            &&& refreshed(components).cell == components.cell
            &&& refreshed(components).player == components.player
            &&& refreshed(components).node == components.node
            &&& refreshed(components).selected == components.selected
        },
{
}

impl GameWorld {

/// A game world with nothing selected and no path shown.
pub fn new() -> (game: GameWorld)
    ensures
        game.selected_entity is None,
        game.current_path@.len() == 0,
{
    GameWorld { selected_entity: None, current_path: Vec::new() }
}

/// Writes the units of an attack back into the world; a defender whose
/// integrity is spent is removed.
pub fn handle_attack_result(world: &mut World, attacker: Entity, defender: Entity, result: AttackResult)
    requires
        old(world).wf(),
        alive(old(world)@, attacker),
        result.defender.integrity > 0 ==> alive(old(world)@, defender),
    ensures
        final(world).wf(),
        final(world)@ == spec_handle_attack_result(old(world)@, attacker, defender, result),
        final(world).free_indices() == old(world).free_indices(),
        attacker != defender ==> components_of(final(world)@, attacker).unit == Some(result.attacker),
        attacker != defender && result.defender.integrity <= 0 ==> !alive(final(world)@, defender),
{
    proof {
        world.lemma_distinct();
        if attacker != defender {
            lemma_attack_written_back(world@, attacker, defender, result);
        }
    }
    let attacker_components = world.components(attacker).unwrap();
    world.set_components(attacker, Components { unit: Some(result.attacker), ..attacker_components });
    if result.defender.integrity <= 0 {
        world.delete(defender);
    } else {
        let defender_components = world.components(defender).unwrap();
        world.set_components(defender, Components { unit: Some(result.defender), ..defender_components });
    }
}

/// Walks the unit `entity` to `hexagon` when its remaining range covers the distance.
pub fn move_entity_to_hexagon(entity: Entity, hexagon: &Cell, world: &mut World)
    requires
        old(world).wf(),
        is_placed_unit(old(world)@, entity),
        move_fits(old(world)@, entity, *hexagon),
    ensures
        final(world).wf(),
        final(world)@ == spec_move_entity(old(world)@, entity, *hexagon),
        final(world).free_indices() == old(world).free_indices(),
{
    let components = world.components(entity).unwrap();
    let selected_unit = components.unit.unwrap();
    let selected_hexagon = components.cell.unwrap();
    let distance = selected_hexagon.distance_to(hexagon);
    let can_move = selected_unit.can_move(distance);
    match can_move {
        CanMove::Yes(remaining_range) => {
            let updated_hexagon = Cell::new_axial(hexagon.get_q(), hexagon.get_r());
            let updated_selected_unit = Unit::new(
                selected_unit.integrity,
                selected_unit.damage,
                selected_unit.max_attack_range,
                selected_unit.min_attack_range,
                selected_unit.armor,
                selected_unit.mobility,
                remaining_range,
                selected_unit.remaining_attacks,
            );
            world.set_components(
                entity,
                Components { cell: Some(updated_hexagon), unit: Some(updated_selected_unit), ..components },
            );
        },
        CanMove::No => {},
    }
}

/// Starts a new round: every unit gets one attack and its full mobility.
pub fn on_new_round(&mut self, world: &mut World)
    requires
        old(world).wf(),
    ensures
        final(world).wf(),
        final(world)@.order == old(world)@.order,
        forall|entity: Entity| #[trigger]
            alive(old(world)@, entity) ==> components_of(final(world)@, entity) == refreshed(
                components_of(old(world)@, entity),
            ),
        forall|entity: Entity| #[trigger]
            alive(old(world)@, entity) && components_of(old(world)@, entity).unit is Some ==> {
                &&& components_of(final(world)@, entity).unit->0.remaining_range == components_of(
                    old(world)@,
                    entity,
                ).unit->0.mobility
                &&& components_of(final(world)@, entity).unit->0.remaining_attacks == 1
            },
        final(world).free_indices() == old(world).free_indices(),
        *final(self) == *old(self),
{
    let mut i: usize = 0;
    let ghost old_world = world@;
    let count = world.len();
    while i < world.len()
        invariant
            world.wf(),
            0 <= i <= world@.order.len(),
            world@.order == old_world.order,
            world.free_indices() == old(world).free_indices(),
            old_world == old(world)@,
            old_world.order.no_duplicates(),
            forall|j: int|
                0 <= j < world@.order.len() ==> #[trigger] components_of(world@, world@.order[j]) == if j
                    < i {
                    refreshed(components_of(old_world, old_world.order[j]))
                } else {
                    components_of(old_world, old_world.order[j])
                },
        decreases world@.order.len() - i,
    {
        let entity = world.entity_at(i);
        assert(world@.order.contains(entity));
        let components = world.components(entity).unwrap();
        let ghost before = world@;
        assert(components == components_of(old_world, old_world.order[i as int]));
        match components.unit {
            Some(unit) => {
                world.set_components(
                    entity,
                    Components {
                        unit: Some(Unit { remaining_attacks: 1, remaining_range: unit.mobility, ..unit }),
                        ..components
                    },
                );
            },
            None => {},
        }
        proof {
            assert(components_of(world@, entity) == refreshed(components));
            assert forall|j: int| 0 <= j < world@.order.len() implies #[trigger] components_of(
                world@,
                world@.order[j],
            ) == if j < i + 1 {
                refreshed(components_of(old_world, old_world.order[j]))
            } else {
                components_of(old_world, old_world.order[j])
            } by {
                if j != i {
                    assert(old_world.order[j] != old_world.order[i as int]);
                    assert(world@.order[j].index != entity.index);
                    assert(components_of(before, before.order[j]) == components_of(world@, world@.order[j]));
                }
            }
        }
        i = i + 1;
    }
    proof {
        assert forall|entity: Entity| #[trigger] alive(old(world)@, entity) implies components_of(
            world@,
            entity,
        ) == refreshed(components_of(old(world)@, entity)) by {
            let j = choose|j: int| 0 <= j < old_world.order.len() && old_world.order[j] == entity;
            assert(components_of(world@, world@.order[j]) == refreshed(components_of(old_world, old_world.order[j])));
        }
    }
}

}

/// Whether `entity` has a scene node and is tagged as selected.
pub open spec fn is_selected_node(world: WorldState, entity: Entity) -> bool {
    components_of(world, entity).node is Some && components_of(world, entity).selected
}

/// The first entity of `order` that has a scene node and is tagged as selected.
pub open spec fn first_selected_node(world: WorldState, order: Seq<Entity>) -> Option<Entity>
    decreases order.len(),
{
    if order.len() == 0 {
        None
    } else if is_selected_node(world, order[0]) {
        Some(order[0])
    } else {
        first_selected_node(world, order.drop_first())
    }
}

/// The world after the selected tag of `entity` was set to `selected`.
pub open spec fn with_selected(world: WorldState, entity: Entity, selected: bool) -> WorldState {
    with_components(world, entity, Components { selected, ..components_of(world, entity) })
}

/// The world after the selection moved to `entity`: the first selected entity
/// with a node loses its tag, then `entity`, if any, gains it.
pub open spec fn spec_set_selected(world: WorldState, entity: Option<Entity>) -> WorldState {
    let cleared = match first_selected_node(world, world.order) {
        Some(previous) => with_selected(world, previous, false),
        None => world,
    };
    match entity {
        Some(entity) => with_selected(cleared, entity, true),
        None => cleared,
    }
}

proof fn lemma_first_selected_node_skip(world: WorldState, order: Seq<Entity>, i: int)
    requires
        0 <= i < order.len(),
        !is_selected_node(world, order[i]),
    ensures
        first_selected_node(world, order.skip(i)) == first_selected_node(world, order.skip(i + 1)),
{
    assert(order.skip(i)[0] == order[i]);
    assert(order.skip(i).drop_first() == order.skip(i + 1));
}

proof fn lemma_first_selected_node_found(world: WorldState, order: Seq<Entity>, i: int)
    requires
        0 <= i < order.len(),
        is_selected_node(world, order[i]),
    ensures
        first_selected_node(world, order.skip(i)) == Some(order[i]),
{
    assert(order.skip(i)[0] == order[i]);
}

impl GameWorld {

/// Moves the selection to `entity`, or clears it for `None`.
pub fn set_selected_entity(&mut self, entity: Option<Entity>, world: &mut World)
    requires
        old(world).wf(),
        entity matches Some(e) ==> alive(old(world)@, e),
    ensures
        final(world).wf(),
        final(world)@ == spec_set_selected(old(world)@, entity),
        final(self).selected_entity == (match entity {
            Some(e) => Some(e.index),
            None => None::<u32>,
        }),
        final(self).current_path@ == old(self).current_path@,
        final(world).free_indices() == old(world).free_indices(),
{
    self.selected_entity = match entity {
        Some(e) => Some(e.index()),
        None => None,
    };
    let mut old_selected: Option<Entity> = None;
    let mut i: usize = 0;
    let count = world.len();
    assert(world@.order.skip(0) == world@.order);
    while i < count
        invariant_except_break
            old_selected is None,
        invariant
            world.wf(),
            count == world@.order.len(),
            0 <= i <= count,
            first_selected_node(world@, world@.order) == first_selected_node(world@, world@.order.skip(i as int)),
        ensures
            old_selected == first_selected_node(world@, world@.order),
            old_selected matches Some(e) ==> alive(world@, e),
        decreases count - i,
    {
        let candidate = world.entity_at(i);
        assert(world@.order.contains(candidate));
        let components = world.components(candidate).unwrap();
        if components.node.is_some() && components.selected {
            proof {
                lemma_first_selected_node_found(world@, world@.order, i as int);
                assert(world@.order[i as int] == candidate);
            }
            old_selected = Some(candidate);
            break;
        }
        proof {
            lemma_first_selected_node_skip(world@, world@.order, i as int);
            if i + 1 == count {
                assert(world@.order.skip(count as int).len() == 0);
            }
        }
        i = i + 1;
    }
    match old_selected {
        None => {},
        Some(previous) => {
            let components = world.components(previous).unwrap();
            world.set_components(previous, Components { selected: false, ..components });
        },
    }
    match entity {
        None => {
            self.selected_entity = None;
        },
        Some(entity) => {
            let components = world.components(entity).unwrap();
            world.set_components(entity, Components { selected: true, ..components });
        },
    }
}

}

/// What a click on a hexagon did.
#[derive(Clone, Copy, Debug, PartialEq, Eq, Structural)]
pub enum ClickOutcome {
    /// The clicked entity, its hexagon, or any entity on it was not found.
    NotFound,
    /// Nothing happened: no unit to select, or the selected entity can not act.
    Ignored,
    /// The unit on the clicked hexagon is now selected.
    Selected(Entity),
    /// The selected unit was clicked again and is no longer selected.
    Deselected,
    /// The selected unit attacked the clicked unit.
    Attacked(AttackResult),
    /// The selected unit had no attack left.
    NoAttacksLeft,
    /// The selected unit was sent to the clicked hexagon.
    Moved,
}

/// The first entity of `entities` that carries a unit.
pub open spec fn first_with_unit(world: WorldState, entities: Seq<Entity>) -> Option<Entity>
    decreases entities.len(),
{
    if entities.len() == 0 {
        None
    } else if components_of(world, entities[0]).unit is Some {
        Some(entities[0])
    } else {
        first_with_unit(world, entities.drop_first())
    }
}

/// The entity a click on `hexagon` picks: the first one with a unit, else the first one.
pub open spec fn clicked_entity(world: WorldState, hexagon: Cell) -> Entity {
    let entities = entities_at(world, world.order, hexagon);
    match first_with_unit(world, entities) {
        Some(entity) => entity,
        None => entities[0],
    }
}

/// Whether the selected entity answers a click on `hexagon` by attacking,
/// and the attack stays inside `i32` arithmetic, or by moving, and it can.
pub open spec fn click_is_safe(selected_entity: Option<u32>, world: WorldState, entity_index: u32) -> bool {
    let clicked_on = Entity { index: entity_index };
    alive(world, clicked_on) && components_of(world, clicked_on).cell is Some
        && selected_entity is Some && alive(world, Entity { index: selected_entity->0 }) && Entity {
        index: selected_entity->0,
    } != clicked_entity(world, components_of(world, clicked_on).cell->0) ==> {
        let hexagon = components_of(world, clicked_on).cell->0;
        let selected = Entity { index: selected_entity->0 };
        let clicked = clicked_entity(world, hexagon);
        if components_of(world, clicked).unit is Some {
            components_of(world, selected).unit matches Some(unit) ==> (unit.remaining_attacks > 0
                ==> crate::components::unit::attack_fits(unit, components_of(world, clicked).unit->0))
        } else {
            is_placed_unit(world, selected) && move_fits(world, selected, hexagon)
        }
    }
}

/// The selection, the world and the outcome after a click on the hexagon of
/// the entity with index `entity_index`.
pub open spec fn spec_click(selected_entity: Option<u32>, world: WorldState, entity_index: u32) -> (
    Option<u32>,
    WorldState,
    ClickOutcome,
) {
    let clicked_on = Entity { index: entity_index };
    if !alive(world, clicked_on) || components_of(world, clicked_on).cell is None {
        (selected_entity, world, ClickOutcome::NotFound)
    } else {
        let hexagon = components_of(world, clicked_on).cell->0;
        let clicked = clicked_entity(world, hexagon);
        match selected_entity {
            None => if components_of(world, clicked).unit is None {
                (selected_entity, world, ClickOutcome::Ignored)
            } else {
                (
                    Some(clicked.index),
                    spec_set_selected(with_selected(world, clicked, true), Some(clicked)),
                    ClickOutcome::Selected(clicked),
                )
            },
            Some(index) => {
                let selected = Entity { index };
                if !alive(world, selected) {
                    (selected_entity, world, ClickOutcome::Ignored)
                } else if selected == clicked {
                    (None, spec_set_selected(world, None), ClickOutcome::Deselected)
                } else if components_of(world, clicked).unit is Some {
                    if components_of(world, selected).unit is None {
                        (selected_entity, world, ClickOutcome::Ignored)
                    } else {
                        match crate::components::unit::spec_attack(
                            components_of(world, selected).unit->0,
                            components_of(world, clicked).unit->0,
                        ) {
                            Ok(result) => (
                                None,
                                spec_set_selected(
                                    spec_handle_attack_result(world, selected, clicked, result),
                                    None,
                                ),
                                ClickOutcome::Attacked(result),
                            ),
                            Err(_) => (None, spec_set_selected(world, None), ClickOutcome::NoAttacksLeft),
                        }
                    }
                } else {
                    (
                        None,
                        spec_set_selected(spec_move_entity(world, selected, hexagon), None),
                        ClickOutcome::Moved,
                    )
                }
            },
        }
    }
}

/// Whether two worlds hold the same entities in the same order, on the same
/// hexagons and with the same units.
pub open spec fn same_layout(a: WorldState, b: WorldState) -> bool {
    &&& a.order == b.order
    &&& forall|e: Entity|
        #![trigger components_of(a, e)]
        #![trigger components_of(b, e)]
        components_of(a, e).cell == components_of(b, e).cell && components_of(a, e).unit
            == components_of(b, e).unit
}

proof fn lemma_entities_at_same_layout(a: WorldState, b: WorldState, order: Seq<Entity>, cell: Cell)
    requires
        same_layout(a, b),
    ensures
        entities_at(a, order, cell) == entities_at(b, order, cell),
    decreases order.len(),
{
    if order.len() > 0 {
        lemma_entities_at_same_layout(a, b, order.drop_last(), cell);
        assert(components_of(a, order.last()).cell == components_of(b, order.last()).cell);
    }
}

proof fn lemma_first_with_unit_same_layout(a: WorldState, b: WorldState, entities: Seq<Entity>)
    requires
        same_layout(a, b),
    ensures
        first_with_unit(a, entities) == first_with_unit(b, entities),
    decreases entities.len(),
{
    if entities.len() > 0 {
        assert(components_of(a, entities[0]).unit == components_of(b, entities[0]).unit);
        lemma_first_with_unit_same_layout(a, b, entities.drop_first());
    }
}

/// Setting a selected tag moves no entity and changes no unit.
proof fn lemma_with_selected_layout(world: WorldState, entity: Entity, selected: bool)
    ensures
        same_layout(world, with_selected(world, entity, selected)),
{
    let after = with_selected(world, entity, selected);
    assert forall|e: Entity|
        components_of(world, e).cell == components_of(after, e).cell && components_of(world, e).unit
            == components_of(after, e).unit by {
        if e.index == entity.index {
            assert(e == entity);
        }
    }
}

/// Moving the selection moves no entity and changes no unit.
proof fn lemma_set_selected_layout(world: WorldState, entity: Option<Entity>)
    ensures
        same_layout(world, spec_set_selected(world, entity)),
{
    let cleared = match first_selected_node(world, world.order) {
        Some(previous) => with_selected(world, previous, false),
        None => world,
    };
    if let Some(previous) = first_selected_node(world, world.order) {
        lemma_with_selected_layout(world, previous, false);
    }
    if let Some(e) = entity {
        lemma_with_selected_layout(cleared, e, true);
    }
}

/// Clicking the hexagon of a unit selects it when nothing is selected, and
/// clicking the same hexagon again deselects it.
pub proof fn lemma_click_twice_deselects(world: WorldState, entity_index: u32)
    requires
        spec_click(None, world, entity_index).2 is Selected,
    ensures
        ({
            let (selected, after, _) = spec_click(None, world, entity_index);
            spec_click(selected, after, entity_index) == (
                None::<u32>,
                spec_set_selected(after, None),
                ClickOutcome::Deselected,
            )
        }),
{
    let clicked_on = Entity { index: entity_index };
    let hexagon = components_of(world, clicked_on).cell->0;
    let entities = entities_at(world, world.order, hexagon);
    let clicked = clicked_entity(world, hexagon);
    let marked = with_selected(world, clicked, true);
    let after = spec_set_selected(marked, Some(clicked));
    lemma_with_selected_layout(world, clicked, true);
    lemma_set_selected_layout(marked, Some(clicked));
    assert(same_layout(world, after)) by {
        assert forall|e: Entity|
            components_of(world, e).cell == components_of(after, e).cell && components_of(world, e).unit
                == components_of(after, e).unit by {
            assert(components_of(world, e).cell == components_of(marked, e).cell);
            assert(components_of(marked, e).cell == components_of(after, e).cell);
        }
    }
    assert(components_of(world, clicked_on).cell == components_of(after, clicked_on).cell);
    lemma_entities_at_same_layout(world, after, world.order, hexagon);
    lemma_first_with_unit_same_layout(world, after, entities);
    crate::world::lemma_entities_at_members(world, world.order, hexagon, clicked_on);
    lemma_first_with_unit_member(world, entities);
    assert(clicked_entity(after, hexagon) == clicked);
    assert(entities.contains(clicked)) by {
        if first_with_unit(world, entities) is None {
            assert(entities.contains(clicked_on));
            assert(entities[0] == clicked);
        }
    }
    crate::world::lemma_entities_at_members(world, world.order, hexagon, clicked);
}

proof fn lemma_first_with_unit_member(world: WorldState, entities: Seq<Entity>)
    ensures
        first_with_unit(world, entities) matches Some(e) ==> entities.contains(e) && components_of(
            world,
            e,
        ).unit is Some,
        first_with_unit(world, entities) is None ==> forall|i: int|
            0 <= i < entities.len() ==> components_of(world, #[trigger] entities[i]).unit is None,
    decreases entities.len(),
{
    if entities.len() > 0 {
        lemma_first_with_unit_member(world, entities.drop_first());
        if let Some(e) = first_with_unit(world, entities) {
            if components_of(world, entities[0]).unit is None {
                let i = choose|i: int| 0 <= i < entities.drop_first().len() && entities.drop_first()[i] == e;
                assert(entities[i + 1] == e);
            }
        }
        if first_with_unit(world, entities) is None {
            assert forall|i: int| 0 <= i < entities.len() implies components_of(world, #[trigger] entities[i]).unit is None by {
                if i > 0 {
                    assert(entities[i] == entities.drop_first()[i - 1]);
                }
            }
        }
    }
}

/// The entity a click on `hexagon` picks among `entities`, which stand on it.
fn pick_clicked_entity(world: &World, entities: &Vec<Entity>) -> (clicked: Entity)
    requires
        world.wf(),
        entities@.len() > 0,
        forall|i: int| 0 <= i < entities@.len() ==> alive(world@, #[trigger] entities@[i]),
    ensures
        clicked == (match first_with_unit(world@, entities@) {
            Some(entity) => entity,
            None => entities@[0],
        }),
{
    let mut i: usize = 0;
    assert(entities@.skip(0) == entities@);
    while i < entities.len()
        invariant
            world.wf(),
            0 <= i <= entities@.len(),
            entities@.len() > 0,
            forall|j: int| 0 <= j < entities@.len() ==> alive(world@, #[trigger] entities@[j]),
            first_with_unit(world@, entities@) == first_with_unit(world@, entities@.skip(i as int)),
        decreases entities@.len() - i,
    {
        let entity = entities[i];
        let components = world.components(entity).unwrap();
        assert(entities@.skip(i as int)[0] == entity);
        if components.unit.is_some() {
            return entity;
        }
        assert(entities@.skip(i as int).drop_first() == entities@.skip(i + 1));
        i = i + 1;
    }
    assert(entities@.skip(i as int).len() == 0);
    entities[0]
}

impl GameWorld {

/// Answers a click on the hexagon of the entity with index `entity_index`:
/// with nothing selected, a unit there is selected; with a unit selected, it
/// attacks a unit there, or walks to the hexagon when no unit stands there,
/// and the selection is cleared. The shown path is cleared in any case.
pub fn hex_clicked(&mut self, world: &mut World, entity_index: u32) -> (outcome: ClickOutcome)
    requires
        old(world).wf(),
        click_is_safe(old(self).selected_entity, old(world)@, entity_index),
    ensures
        final(world).wf(),
        (final(self).selected_entity, final(world)@, outcome) == spec_click(
            old(self).selected_entity,
            old(world)@,
            entity_index,
        ),
        final(self).current_path@.len() == 0,
{
    let outcome = self.click(world, entity_index);
    self.current_path = Vec::new();
    outcome
}

fn click(&mut self, world: &mut World, entity_index: u32) -> (outcome: ClickOutcome)
    requires
        old(world).wf(),
        click_is_safe(old(self).selected_entity, old(world)@, entity_index),
    ensures
        final(world).wf(),
        (final(self).selected_entity, final(world)@, outcome) == spec_click(
            old(self).selected_entity,
            old(world)@,
            entity_index,
        ),
{
    let self_entity = match GameWorld::find_entity(entity_index, world) {
        None => {
            return ClickOutcome::NotFound;
        },
        Some(entity) => entity,
    };
    let clicked_hexagon = match world.components(self_entity).unwrap().cell {
        None => {
            return ClickOutcome::NotFound;
        },
        Some(hexagon) => hexagon,
    };
    let entities_at_hexagon = GameWorld::get_entities_at_hexagon(&clicked_hexagon, world);
    proof {
        crate::world::lemma_entities_at_members(world@, world@.order, clicked_hexagon, self_entity);
        assert forall|i: int| 0 <= i < entities_at_hexagon@.len() implies alive(
            world@,
            #[trigger] entities_at_hexagon@[i],
        ) by {
            crate::world::lemma_entities_at_members(world@, world@.order, clicked_hexagon, entities_at_hexagon@[i]);
        }
    }
    if entities_at_hexagon.len() == 0 {
        return ClickOutcome::NotFound;
    }
    let clicked_entity = pick_clicked_entity(world, &entities_at_hexagon);
    proof {
        lemma_first_with_unit_member(world@, entities_at_hexagon@);
        assert(entities_at_hexagon@.contains(clicked_entity)) by {
            if first_with_unit(world@, entities_at_hexagon@) is None {
                assert(entities_at_hexagon@[0] == clicked_entity);
            }
        }
        crate::world::lemma_entities_at_members(world@, world@.order, clicked_hexagon, clicked_entity);
    }
    let clicked_components = world.components(clicked_entity).unwrap();
    match self.selected_entity {
        None => {
            if clicked_components.unit.is_none() {
                return ClickOutcome::Ignored;
            }
            world.set_components(clicked_entity, Components { selected: true, ..clicked_components });
            self.set_selected_entity(Some(clicked_entity), world);
            ClickOutcome::Selected(clicked_entity)
        },
        Some(selected_index) => {
            let selected_entity = match GameWorld::find_entity(selected_index, world) {
                None => {
                    return ClickOutcome::Ignored;
                },
                Some(entity) => entity,
            };
            if selected_entity == clicked_entity {
                self.set_selected_entity(None, world);
                return ClickOutcome::Deselected;
            }
            let selected_components = world.components(selected_entity).unwrap();
            let outcome = if clicked_components.unit.is_some() {
                let selected_unit = match selected_components.unit {
                    None => {
                        return ClickOutcome::Ignored;
                    },
                    Some(unit) => unit,
                };
                let clicked_unit = clicked_components.unit.unwrap();
                match selected_unit.attack(&clicked_unit) {
                    Ok(result) => {
                        GameWorld::handle_attack_result(world, selected_entity, clicked_entity, result);
                        ClickOutcome::Attacked(result)
                    },
                    Err(_) => ClickOutcome::NoAttacksLeft,
                }
            } else {
                GameWorld::move_entity_to_hexagon(selected_entity, &clicked_hexagon, world);
                ClickOutcome::Moved
            };
            self.set_selected_entity(None, world);
            outcome
        },
    }
}

}

/// Whether `-q - r` is an `i32`.
fn axial_fits_i32(q: i32, r: i32) -> (fits: bool)
    ensures
        fits == axial_fits(q, r),
{
    let sum = -(q as i64) - (r as i64);
    q != i32::MIN && i32::MIN as i64 <= sum && sum <= i32::MAX as i64
}

/// Whether the attack of `attacker` on `defender` stays inside `i32` arithmetic.
fn attack_fits_i32(attacker: &Unit, defender: &Unit) -> (fits: bool)
    ensures
        fits == crate::components::unit::attack_fits(*attacker, *defender),
{
    let damage = attacker.damage as i64 - defender.armor as i64;
    let integrity = defender.integrity as i64 - damage;
    let low = i32::MIN as i64;
    let high = i32::MAX as i64;
    low <= damage && damage <= high && low <= integrity && integrity <= high
}

impl GameWorld {

/// Whether a click on the hexagon of the entity with index `entity_index`
/// can be answered: an attack it leads to stays inside `i32` arithmetic, and
/// so does a walk it leads to.
pub fn can_answer_click(&self, world: &World, entity_index: u32) -> (safe: bool)
    requires
        world.wf(),
    ensures
        safe == click_is_safe(self.selected_entity, world@, entity_index),
{
    let clicked_on = Entity { index: entity_index };
    let components = match world.components(clicked_on) {
        None => {
            return true;
        },
        Some(components) => components,
    };
    let hexagon = match components.cell {
        None => {
            return true;
        },
        Some(hexagon) => hexagon,
    };
    let selected_index = match self.selected_entity {
        None => {
            return true;
        },
        Some(index) => index,
    };
    let selected = Entity { index: selected_index };
    let selected_components = match world.components(selected) {
        None => {
            return true;
        },
        Some(selected_components) => selected_components,
    };
    let entities = GameWorld::get_entities_at_hexagon(&hexagon, world);
    proof {
        crate::world::lemma_entities_at_members(world@, world@.order, hexagon, clicked_on);
        assert forall|i: int| 0 <= i < entities@.len() implies alive(world@, #[trigger] entities@[i]) by {
            crate::world::lemma_entities_at_members(world@, world@.order, hexagon, entities@[i]);
        }
    }
    let clicked = pick_clicked_entity(world, &entities);
    proof {
        lemma_first_with_unit_member(world@, entities@);
        assert(entities@.contains(clicked)) by {
            if first_with_unit(world@, entities@) is None {
                assert(entities@[0] == clicked);
            }
        }
        crate::world::lemma_entities_at_members(world@, world@.order, hexagon, clicked);
    }
    if selected == clicked {
        return true;
    }
    let clicked_components = world.components(clicked).unwrap();
    match clicked_components.unit {
        Some(target) => match selected_components.unit {
            None => true,
            Some(unit) => unit.remaining_attacks <= 0 || attack_fits_i32(&unit, &target),
        },
        None => match (selected_components.unit, selected_components.cell) {
            (Some(_), Some(cell)) => cell.distance_fits_with(&hexagon) && axial_fits_i32(
                hexagon.q,
                hexagon.r,
            ),
            _ => false,
        },
    }
}

}

impl GameWorld {

/// Shows the path from the selected unit to the hexagon of the entity with
/// index `entity_index`, which the mouse entered; with nothing selected the
/// path is cleared.
pub fn hex_mouse_entered(&mut self, world: &World, entity_index: u32)
    requires
        world.wf(),
    ensures
        final(self).selected_entity == old(self).selected_entity,
        match old(self).selected_entity {
            None => final(self).current_path@.len() == 0,
            Some(selected_index) => {
                let selected = Entity { index: selected_index };
                let hovered = Entity { index: entity_index };
                if is_placed(world@, selected) && is_placed(world@, hovered) {
                    is_search_result(
                        world@,
                        final(self).current_path@,
                        components_of(world@, selected).cell->0,
                        components_of(world@, hovered).cell->0,
                    )
                } else {
                    final(self).current_path@ == old(self).current_path@
                }
            },
        },
{
    let selected_entity_index = match self.selected_entity {
        None => {
            self.current_path = Vec::new();
            return;
        },
        Some(index) => index,
    };
    let selected_entity = match GameWorld::find_entity(selected_entity_index, world) {
        None => {
            return;
        },
        Some(entity) => entity,
    };
    let selected_hexagon = match world.components(selected_entity).unwrap().cell {
        None => {
            return;
        },
        Some(hexagon) => hexagon,
    };
    let mouse_entity = match GameWorld::find_entity(entity_index, world) {
        None => {
            return;
        },
        Some(entity) => entity,
    };
    let mouse_hexagon = match world.components(mouse_entity).unwrap().cell {
        None => {
            return;
        },
        Some(hexagon) => hexagon,
    };
    self.current_path = GameWorld::find_path(&selected_hexagon, &mouse_hexagon, world);
}

}

/// Whether `entity` lives and stands on a hexagon.
pub open spec fn is_placed(world: WorldState, entity: Entity) -> bool {
    alive(world, entity) && components_of(world, entity).cell is Some
}

} // verus!
