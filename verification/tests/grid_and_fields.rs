use hexgame::components::cell::Cell;
use hexgame::components::field::Field;
use hexgame::components::position::Position;
use hexgame::components::unit::Unit;
use hexgame::hexfield::{FieldShade, HexField as GridField};
use hexgame::hexgrid::{HexGrid, hexfield_positions};
use hexgame::legion::{ComponentKind, entity_has_component};
use hexgame::nodes::dummy_unit::{DummyUnit, UnitDisplay};
use hexgame::nodes::hexfield::{AttackVisibility, HexField};
use hexgame::resources::physics_state::PhysicsState;
use hexgame::systems::find_entity_of_instance;
use hexgame::world::{Components, NodeRef, World};

#[test]
fn hexfield_positions_of_radius_one() {
    let positions = hexfield_positions(1);
    assert_eq!(positions.len(), 9);
    assert_eq!(positions[0], Position::new_axial(-1, -1));
    assert_eq!(positions[1], Position::new_axial(-1, 0));
    assert!(positions.contains(&Position::new_axial(1, 1)));
    let wide = hexfield_positions(5);
    assert!(!wide.contains(&Position::new_axial(5, 0)));
    assert!(wide.contains(&Position::new_axial(4, 0)));
}

#[test]
fn hexfield_positions_stop_at_four_steps() {
    assert_eq!(hexfield_positions(4).len(), 61);
    assert_eq!(hexfield_positions(6).len(), 61);
    assert!(hexfield_positions(-2).is_empty());
}

#[test]
fn hex_grid_lays_out_fields_only_with_a_prefab() {
    let mut grid = HexGrid::new();
    assert_eq!(grid._set_radius(1), None);
    assert_eq!(grid._get_radius(), 1);
    grid.hexagon_prefab = Some(3);
    assert_eq!(grid.update_hexfields().map(|p| p.len()), Some(9));
}

fn unit_at(world: &mut World, q: i32, r: i32, player: usize, node: i64, unit: Unit) -> hexgame::world::Entity {
    world.insert(Components {
        cell: Some(Cell::new_axial(q, r)),
        unit: Some(unit),
        player: Some(player),
        node: Some(NodeRef { id: node, is_field: false }),
        selected: false,
    })
}

fn field_at(world: &mut World, q: i32, r: i32, node: i64) -> hexgame::world::Entity {
    world.insert(Components {
        cell: Some(Cell::new_axial(q, r)),
        unit: None,
        player: None,
        node: Some(NodeRef { id: node, is_field: true }),
        selected: false,
    })
}

#[test]
fn grid_field_in_range_of_the_selected_unit() {
    let world = &mut World::new();
    let unit = unit_at(world, 0, 0, 0, 10, Unit::new(5, 1, 1, 1, 0, 2, 2, 1));
    let near = field_at(world, 1, 0, 20);
    let far = field_at(world, 3, 0, 30);
    assert!(!GridField::is_selected_in_range(world, near.index()));
    let mut components = world.components(unit).unwrap();
    components.selected = true;
    world.set_components(unit, components);
    assert!(GridField::is_selected_in_range(world, near.index()));
    assert!(!GridField::is_selected_in_range(world, far.index()));
    let mut field = GridField::new();
    assert_eq!(field.field_shade(false), FieldShade::Plain);
    field._on_field_mouse_entered();
    assert_eq!(field.field_shade(true), FieldShade::Bright);
    assert_eq!(field.field_shade(false), FieldShade::Dim);
}

#[test]
fn node_field_sees_units_and_targets() {
    let world = &mut World::new();
    let attacker = unit_at(world, 0, 0, 0, 10, Unit::new(5, 1, 2, 1, 0, 3, 3, 1));
    let friend = unit_at(world, 1, 0, 0, 11, Unit::new(5, 1, 2, 1, 0, 3, 3, 1));
    let enemy = unit_at(world, 0, 2, 1, 12, Unit::new(5, 1, 2, 1, 0, 3, 3, 1));
    field_at(world, 0, 0, 20);
    field_at(world, 0, 2, 21);
    let empty = field_at(world, 5, 5, 22);
    assert_eq!(HexField::has_unit_on_field(world, 21), Some(true));
    assert_eq!(HexField::has_unit_on_field(world, 22), Some(false));
    assert_eq!(HexField::has_unit_on_field(world, 99), None);
    assert_eq!(HexField::attack_visibility(world, attacker, &Cell::new_axial(1, 0)), AttackVisibility::Hidden);
    assert_eq!(
        HexField::attack_visibility(world, attacker, &Cell::new_axial(0, 2)),
        AttackVisibility::NeedsRays(vec![21, 20])
    );
    assert_eq!(HexField::attack_visibility(world, attacker, &Cell::new_axial(4, 0)), AttackVisibility::Hidden);
    assert!(HexField::is_moveable(world, attacker, &Cell::new_axial(1, -1)));
    assert!(!HexField::is_moveable(world, attacker, &Cell::new_axial(5, 5)));
    assert!(!HexField::is_moveable(world, empty, &Cell::new_axial(1, -1)));
    let _ = (friend, enemy);
    let mut node = HexField::new();
    node._on_field_mouse_entered();
    assert!(node.hovered);
    node._on_field_mouse_exited();
    assert!(!node.hovered);
}

#[test]
fn dummy_unit_display() {
    let world = &mut World::new();
    let unit = unit_at(world, 0, 0, 1, 10, Unit::new(7, 1, 1, 1, 0, 3, 3, 1));
    assert_eq!(find_entity_of_instance(10, world), Some(unit));
    assert_eq!(
        DummyUnit::unit_display(world, Some(unit), 10),
        Some(UnitDisplay { integrity: Some(7), outlined: true, player: Some(1) })
    );
    assert_eq!(
        DummyUnit::unit_display(world, None, 10),
        Some(UnitDisplay { integrity: Some(7), outlined: false, player: Some(1) })
    );
    assert_eq!(DummyUnit::unit_display(world, None, 11), None);
    assert_eq!(DummyUnit::new(), DummyUnit {});
}

#[test]
fn components_and_resources() {
    let world = &mut World::new();
    let unit = unit_at(world, 0, 0, 1, 10, Unit::new(7, 1, 1, 1, 0, 3, 3, 1));
    assert!(entity_has_component(world, &unit, ComponentKind::Unit));
    assert!(entity_has_component(world, &unit, ComponentKind::Node));
    let field = world.insert(Components { cell: None, unit: None, player: None, node: None, selected: false });
    assert!(!entity_has_component(world, &field, ComponentKind::Cell));
    assert!(world.delete(field));
    assert!(!entity_has_component(world, &field, ComponentKind::Player));
    assert!(!world.delete(field));
    assert_eq!(world.len(), 1);
    assert_eq!(PhysicsState::new(4).id, 4);
    let f = Field::new(Cell::new_axial(1, 2));
    assert!(!f.moveable && !f.attackable);
}

#[test]
fn in_range_is_computable_unless_the_distance_overflows() {
    let mut world = World::new();
    let unit = world.insert(Components {
        cell: Some(Cell::new_axial(0, 0)),
        unit: Some(Unit::new(10, 2, 1, 1, 1, 5, 5, 1)),
        player: Some(0),
        node: None,
        selected: true,
    });
    let near = world.insert(Components {
        cell: Some(Cell::new_axial(1, 0)),
        unit: None,
        player: None,
        node: None,
        selected: false,
    });
    let far = world.insert(Components {
        cell: Some(Cell::new_cube(i32::MAX, 0, i32::MIN + 1)),
        unit: None,
        player: None,
        node: None,
        selected: false,
    });
    assert!(GridField::in_range_computable(&world, near.index()));
    assert!(GridField::in_range_computable(&world, unit.index()));
    assert!(!GridField::in_range_computable(&world, far.index()));
    assert!(GridField::is_selected_in_range(&world, near.index()));
    assert!(Cell::new_axial(1, 0).distance_fits_with(&Cell::zero()));
    assert!(!Cell::new_cube(i32::MAX, 0, i32::MIN + 1).distance_fits_with(&Cell::zero()));
}
