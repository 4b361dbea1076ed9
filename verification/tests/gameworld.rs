use hexgame::components::cell::Cell;
use hexgame::components::unit::{AttackResult, Unit};
use hexgame::gameworld::{ClickOutcome, GameWorld};
use hexgame::world::{Components, NodeRef, World};

fn components(cell: Option<Cell>, unit: Option<Unit>) -> Components {
    Components { cell, unit, player: None, node: None, selected: false }
}

#[test]
fn find_entity_returns_entity_with_index() {
    let world = &mut World::new();
    world.insert(components(None, None));
    let check_entity_index = world.insert(components(None, None)).index();

    let entity = GameWorld::find_entity(check_entity_index, world);
    let entity = match entity {
        None => panic!("Expected result with Some value"),
        Some(x) => x,
    };
    assert_eq!(entity.index(), check_entity_index)
}

#[test]
fn find_entity_returns_none_if_entity_does_not_exist() {
    let world = &World::new();
    let entity = GameWorld::find_entity(0, world);
    assert_eq!(entity, None);
}

#[test]
fn get_entities_at_hexagon_returns_all_entities_with_the_correct_tag_value() {
    let world = &mut World::new();
    world.insert(components(Some(Cell::new_axial(0, 0)), None));
    world.insert(components(Some(Cell::new_axial(1, 3)), None));
    world.insert(components(Some(Cell::new_axial(1, 3)), None));

    let result = GameWorld::get_entities_at_hexagon(&Cell::new_axial(1, 3), world);
    assert!(result.iter().all(|entity| {
        let hexagon = world.components(*entity).unwrap().cell.unwrap();
        hexagon.get_q() == 1 && hexagon.get_r() == 3
    }));
    assert_eq!(result.len(), 2);
}

#[test]
fn handle_attack_result_updates_components() {
    let world = &mut World::new();
    let attacker = world.insert(components(None, Some(Unit::new(1, 1, 0, 0, 0, 0, 0, 1))));
    let defender = world.insert(components(None, Some(Unit::new(2, 1, 0, 0, 0, 0, 0, 0))));
    let result = AttackResult {
        attacker: Unit::new(1, 1, 0, 0, 0, 0, 0, 0),
        defender: Unit::new(1, 1, 0, 0, 0, 0, 0, 0),
        actual_damage: 1,
    };

    GameWorld::handle_attack_result(world, attacker, defender, result);

    let changed_attacker = world.components(attacker).unwrap().unit.unwrap();
    assert_eq!(changed_attacker.remaining_attacks, 0);
    let changed_defender = world.components(defender).unwrap().unit.unwrap();
    assert_eq!(changed_defender.integrity, 1);
}

#[test]
fn handle_attack_result_removes_defender_when_integrity_lower_or_eq_0() {
    let world = &mut World::new();
    let attacker = world.insert(components(None, Some(Unit::new(1, 2, 0, 0, 0, 0, 0, 1))));
    let defender = world.insert(components(None, Some(Unit::new(2, 1, 0, 0, 0, 0, 0, 0))));
    let result = AttackResult {
        attacker: Unit::new(1, 1, 0, 0, 0, 0, 0, 0),
        defender: Unit::new(0, 1, 0, 0, 0, 0, 0, 0),
        actual_damage: 1,
    };

    GameWorld::handle_attack_result(world, attacker, defender, result);

    assert!(!world.is_alive(defender));
}

#[test]
fn move_entity_to_hexagon_updates_entity() {
    let world = &mut World::new();
    let entity = world.insert(components(
        Some(Cell::new_axial(0, 0)),
        Some(Unit::new(0, 0, 0, 0, 0, 0, 2, 0)),
    ));

    GameWorld::move_entity_to_hexagon(entity, &Cell::new_axial(1, 1), world);

    let hexagon = world.components(entity).unwrap().cell.unwrap();
    assert_eq!(hexagon.get_q(), 1);
    assert_eq!(hexagon.get_r(), 1);
    assert_eq!(world.components(entity).unwrap().unit.unwrap().remaining_range, 0);
}

#[test]
fn move_entity_to_hexagon_does_nothing_if_entity_cannot_move() {
    let world = &mut World::new();
    let entity = world.insert(components(
        Some(Cell::new_axial(5, 5)),
        Some(Unit::new(0, 0, 0, 0, 0, 0, 1, 0)),
    ));
    GameWorld::move_entity_to_hexagon(entity, &Cell::new_axial(1, 1), world);
    let hexagon = world.components(entity).unwrap().cell.unwrap();
    assert_eq!(hexagon.get_q(), 5);
    assert_eq!(hexagon.get_r(), 5);
}

#[test]
fn on_new_round_refreshes_units_only() {
    let world = &mut World::new();
    let unit = world.insert(components(Some(Cell::new_axial(0, 0)), Some(Unit::new(3, 2, 1, 1, 0, 4, 0, 0))));
    let field = world.insert(components(Some(Cell::new_axial(1, 0)), None));
    let mut game = GameWorld::new();
    game.on_new_round(world);
    let refreshed = world.components(unit).unwrap().unit.unwrap();
    assert_eq!(refreshed.remaining_attacks, 1);
    assert_eq!(refreshed.remaining_range, 4);
    assert_eq!(refreshed.integrity, 3);
    assert_eq!(world.components(field).unwrap().unit, None);
}

fn path_of(path: &[Cell]) -> Vec<(i32, i32)> {
    path.iter().map(|cell| (cell.get_q(), cell.get_r())).collect()
}

fn assert_is_path(path: &[Cell], start: Cell, target: Cell) {
    assert!(path.len() >= 2);
    assert_eq!(path[0], start);
    assert_eq!(*path.last().unwrap(), target);
    for pair in path.windows(2) {
        assert!(pair[0].is_neighbour(&pair[1]));
    }
}

#[test]
fn find_path_walks_straight_on_an_empty_map() {
    let world = &World::new();
    let start = Cell::new_axial(0, 0);
    let target = Cell::new_axial(3, 0);
    let path = GameWorld::find_path(&start, &target, world);
    assert_eq!(path_of(&path), vec![(0, 0), (1, 0), (2, 0), (3, 0)]);
}

#[test]
fn find_path_goes_around_units() {
    let world = &mut World::new();
    world.insert(components(Some(Cell::new_axial(1, 0)), Some(Unit::new(1, 1, 1, 1, 1, 1, 1, 1))));
    let start = Cell::new_axial(0, 0);
    let target = Cell::new_axial(2, 0);
    let path = GameWorld::find_path(&start, &target, world);
    assert_is_path(&path, start, target);
    assert_eq!(path.len(), 4);
    assert!(!path.contains(&Cell::new_axial(1, 0)));
}

#[test]
fn find_path_is_empty_when_a_unit_stands_on_the_target() {
    let world = &mut World::new();
    world.insert(components(Some(Cell::new_axial(2, 0)), Some(Unit::new(1, 1, 1, 1, 1, 1, 1, 1))));
    let path = GameWorld::find_path(&Cell::new_axial(0, 0), &Cell::new_axial(2, 0), world);
    assert!(path.is_empty());
}

#[test]
fn find_path_is_empty_from_a_hexagon_to_itself() {
    let world = &World::new();
    let path = GameWorld::find_path(&Cell::new_axial(4, -2), &Cell::new_axial(4, -2), world);
    assert!(path.is_empty());
}

#[test]
fn find_path_ignores_entities_without_units() {
    let world = &mut World::new();
    world.insert(components(Some(Cell::new_axial(1, 0)), None));
    let path = GameWorld::find_path(&Cell::new_axial(0, 0), &Cell::new_axial(2, 0), world);
    assert_eq!(path_of(&path), vec![(0, 0), (1, 0), (2, 0)]);
}

#[test]
fn get_neighbours_lists_the_six_directions() {
    let neighbours = GameWorld::get_neighbours(&Cell::new_axial(0, 0));
    assert_eq!(
        neighbours,
        vec![
            Cell::new_cube(1, 0, -1),
            Cell::new_cube(1, -1, 0),
            Cell::new_cube(0, -1, 1),
            Cell::new_cube(-1, 0, 1),
            Cell::new_cube(-1, 1, 0),
            Cell::new_cube(0, 1, -1),
        ]
    );
}

fn node(id: i64) -> Option<NodeRef> {
    Some(NodeRef { id, is_field: false })
}

#[test]
fn hex_clicked_selects_then_attacks() {
    let world = &mut World::new();
    let attacker = world.insert(Components {
        cell: Some(Cell::new_axial(0, 0)),
        unit: Some(Unit::new(10, 2, 1, 1, 1, 5, 5, 1)),
        player: Some(0),
        node: node(1),
        selected: false,
    });
    let defender = world.insert(Components {
        cell: Some(Cell::new_axial(0, 1)),
        unit: Some(Unit::new(10, 2, 1, 1, 1, 5, 5, 1)),
        player: Some(1),
        node: node(2),
        selected: false,
    });
    let mut game = GameWorld::new();
    assert_eq!(game.hex_clicked(world, attacker.index()), ClickOutcome::Selected(attacker));
    assert_eq!(game.selected_entity, Some(attacker.index()));
    assert!(world.components(attacker).unwrap().selected);
    match game.hex_clicked(world, defender.index()) {
        ClickOutcome::Attacked(result) => assert_eq!(result.actual_damage, 1),
        other => panic!("Expected an attack, got {:?}", other),
    }
    assert_eq!(world.components(defender).unwrap().unit.unwrap().integrity, 9);
    assert_eq!(world.components(attacker).unwrap().unit.unwrap().remaining_attacks, 0);
    assert_eq!(game.selected_entity, None);
    assert!(!world.components(attacker).unwrap().selected);
    assert!(game.current_path.is_empty());
}

#[test]
fn hex_clicked_moves_the_selected_unit_to_a_free_field() {
    let world = &mut World::new();
    let unit = world.insert(Components {
        cell: Some(Cell::new_axial(0, 0)),
        unit: Some(Unit::new(10, 2, 1, 1, 1, 5, 5, 1)),
        player: Some(0),
        node: node(1),
        selected: false,
    });
    let field = world.insert(components(Some(Cell::new_axial(2, 0)), None));
    let mut game = GameWorld::new();
    game.hex_clicked(world, unit.index());
    assert_eq!(game.hex_clicked(world, field.index()), ClickOutcome::Moved);
    let moved = world.components(unit).unwrap();
    assert_eq!(moved.cell, Some(Cell::new_axial(2, 0)));
    assert_eq!(moved.unit.unwrap().remaining_range, 3);
    assert_eq!(game.selected_entity, None);
}

#[test]
fn hex_clicked_ignores_fields_without_units_when_nothing_is_selected() {
    let world = &mut World::new();
    let field = world.insert(components(Some(Cell::new_axial(2, 0)), None));
    let mut game = GameWorld::new();
    assert_eq!(game.hex_clicked(world, field.index()), ClickOutcome::Ignored);
    assert_eq!(game.hex_clicked(world, 99), ClickOutcome::NotFound);
    assert_eq!(game.selected_entity, None);
}

#[test]
fn hex_clicked_on_the_selected_unit_deselects_it() {
    let world = &mut World::new();
    let unit = world.insert(Components {
        cell: Some(Cell::new_axial(0, 0)),
        unit: Some(Unit::new(10, 2, 1, 1, 1, 5, 5, 1)),
        player: Some(0),
        node: node(1),
        selected: false,
    });
    let mut game = GameWorld::new();
    game.hex_clicked(world, unit.index());
    assert_eq!(game.hex_clicked(world, unit.index()), ClickOutcome::Deselected);
    assert_eq!(game.selected_entity, None);
    assert!(!world.components(unit).unwrap().selected);
}

#[test]
fn hex_mouse_entered_shows_the_path_of_the_selected_unit() {
    let world = &mut World::new();
    let unit = world.insert(Components {
        cell: Some(Cell::new_axial(0, 0)),
        unit: Some(Unit::new(10, 2, 1, 1, 1, 5, 5, 1)),
        player: Some(0),
        node: node(1),
        selected: false,
    });
    let field = world.insert(components(Some(Cell::new_axial(0, 2)), None));
    let mut game = GameWorld::new();
    game.hex_mouse_entered(world, field.index());
    assert!(game.current_path.is_empty());
    game.hex_clicked(world, unit.index());
    game.hex_mouse_entered(world, field.index());
    assert_eq!(path_of(&game.current_path), vec![(0, 0), (0, 1), (0, 2)]);
}

#[test]
fn set_selected_entity_moves_the_tag() {
    let world = &mut World::new();
    let first = world.insert(Components { cell: None, unit: None, player: None, node: node(1), selected: true });
    let second = world.insert(Components { cell: None, unit: None, player: None, node: node(2), selected: false });
    let mut game = GameWorld::new();
    game.set_selected_entity(Some(second), world);
    assert!(!world.components(first).unwrap().selected);
    assert!(world.components(second).unwrap().selected);
    assert_eq!(game.selected_entity, Some(second.index()));
}

#[test]
fn find_path_takes_a_shortest_detour() {
    let world = &mut World::new();
    world.insert(components(Some(Cell::new_axial(1, 0)), Some(Unit::new(1, 1, 1, 1, 1, 1, 1, 1))));
    world.insert(components(Some(Cell::new_axial(1, -1)), Some(Unit::new(1, 1, 1, 1, 1, 1, 1, 1))));
    let start = Cell::new_axial(0, 0);
    let target = Cell::new_axial(2, 0);
    let path = GameWorld::find_path(&start, &target, world);
    assert_is_path(&path, start, target);
    assert_eq!(path_of(&path), vec![(0, 0), (0, 1), (1, 1), (2, 0)]);
}

#[test]
fn find_path_is_empty_when_the_start_is_walled_in() {
    let world = &mut World::new();
    for neighbour in GameWorld::get_neighbours(&Cell::new_axial(0, 0)) {
        world.insert(components(Some(neighbour), Some(Unit::new(1, 1, 1, 1, 1, 1, 1, 1))));
    }
    let path = GameWorld::find_path(&Cell::new_axial(0, 0), &Cell::new_axial(3, 0), world);
    assert!(path.is_empty());
}

#[test]
fn can_answer_click_refuses_an_attack_that_overflows() {
    let world = &mut World::new();
    let attacker = world.insert(Components {
        cell: Some(Cell::new_axial(0, 0)),
        unit: Some(Unit::new(10, i32::MAX, 1, 1, -1, 5, 5, 1)),
        player: Some(0),
        node: node(1),
        selected: false,
    });
    let defender = world.insert(Components {
        cell: Some(Cell::new_axial(0, 1)),
        unit: Some(Unit::new(10, 2, 1, 1, -1, 5, 5, 1)),
        player: Some(1),
        node: node(2),
        selected: false,
    });
    let field = world.insert(components(Some(Cell::new_axial(2, 0)), None));
    let mut game = GameWorld::new();
    assert!(game.can_answer_click(world, attacker.index()));
    game.hex_clicked(world, attacker.index());
    assert!(!game.can_answer_click(world, defender.index()));
    assert!(game.can_answer_click(world, field.index()));
    assert!(game.can_answer_click(world, attacker.index()));
}

#[test]
fn a_new_world_has_room_for_entities() {
    let world = &mut World::new();
    assert!(world.has_free_index());
    world.insert(components(None, None));
    assert!(world.has_free_index());
}

#[test]
fn a_second_new_round_changes_nothing_more() {
    let world = &mut World::new();
    let unit = world.insert(components(Some(Cell::new_axial(0, 0)), Some(Unit::new(3, 2, 1, 1, 0, 4, 0, 0))));
    let mut game = GameWorld::new();
    game.on_new_round(world);
    let once = world.components(unit).unwrap();
    game.on_new_round(world);
    assert_eq!(world.components(unit).unwrap(), once);
}

#[test]
fn a_deleted_entity_is_gone_and_others_stay() {
    let world = &mut World::new();
    let first = world.insert(components(Some(Cell::new_axial(1, 0)), None));
    let second = world.insert(components(Some(Cell::new_axial(2, 0)), None));
    assert!(world.delete(first));
    assert!(!world.is_alive(first));
    assert_eq!(world.components(first), None);
    assert!(world.is_alive(second));
    assert_eq!(world.components(second).unwrap().cell, Some(Cell::new_axial(2, 0)));
    assert!(!world.delete(first));
    assert_eq!(world.len(), 1);
}
