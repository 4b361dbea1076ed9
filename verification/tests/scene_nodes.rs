use hexgame::components::cell::Cell;
use hexgame::components::unit::Unit as UnitData;
use hexgame::game_state::Phase;
use hexgame::nodes::map_ui::MapUI;
use hexgame::nodes::unit::UnitNode;
use hexgame::systems::hexmap::{reacts_to_select, selection_event, CellSelected};
use hexgame::unit::{Unit, UnitView};
use hexgame::world::{Components, World};

#[test]
fn unit_node_starts_empty_and_keeps_what_is_set() {
    let mut node = UnitNode::new();
    assert_eq!(node.get_integrity(), 0);
    assert_eq!(node.get_cell(), Cell::zero());
    assert!(!node.get_selected());
    node.set_integrity(7);
    node.set_cell(Cell::new_axial(2, -1));
    node.set_selected(true);
    assert_eq!(node.get_integrity(), 7);
    assert_eq!(node.get_cell(), Cell::new_axial(2, -1));
    assert!(node.get_selected());
    node.set_selected(false);
    assert!(!node.get_selected());
    assert_eq!(node.get_integrity(), 7);
}

#[test]
fn unit_view_shows_integrity_and_selection() {
    let mut world = World::new();
    let plain = world.insert(Components {
        cell: Some(Cell::zero()),
        unit: None,
        player: None,
        node: None,
        selected: false,
    });
    let unit = world.insert(Components {
        cell: Some(Cell::new_axial(1, 0)),
        unit: Some(UnitData::new(9, 1, 1, 1, 1, 1, 1, 1)),
        player: Some(0),
        node: None,
        selected: true,
    });
    assert_eq!(
        Unit::view(&world, unit.index()),
        Some(UnitView { integrity: Some(9), outlined: true })
    );
    assert_eq!(
        Unit::view(&world, plain.index()),
        Some(UnitView { integrity: None, outlined: false })
    );
    assert_eq!(Unit::view(&world, 99), None);
}

#[test]
fn select_button_acts_only_while_waiting_or_selected() {
    assert!(reacts_to_select(&Phase::Waiting));
    assert!(reacts_to_select(&Phase::Selected(Cell::zero(), None)));
    assert!(!reacts_to_select(&Phase::Startup));
    assert!(!reacts_to_select(&Phase::NewRound));
    assert!(!reacts_to_select(&Phase::Attacking(1, 2)));
    assert!(!reacts_to_select(&Phase::Moving(1)));
}

#[test]
fn selection_events_follow_the_phase() {
    assert_eq!(selection_event(&Phase::Waiting), Some(CellSelected { cell: None }));
    assert_eq!(
        selection_event(&Phase::Selected(Cell::new_axial(3, -1), Some(4))),
        Some(CellSelected { cell: Some(Cell::new_axial(3, -1)) })
    );
    assert_eq!(selection_event(&Phase::Startup), None);
    assert_eq!(selection_event(&Phase::Moving(2)), None);
}

#[test]
fn map_ui_names_the_current_player() {
    let names = vec!["Red".to_string(), "Blue".to_string()];
    assert_eq!(MapUI::player_name(&names, None), "None");
    assert_eq!(MapUI::player_name(&names, Some(1)), "Blue");
    assert_eq!(MapUI::player_name(&names, Some(0)), "Red");
    assert_eq!(MapUI::new(), MapUI {});
}
