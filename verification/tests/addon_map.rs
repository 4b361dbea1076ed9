use hexgame::addon::cell::{Cell, Vector2i};
use hexgame::addon::hex_map::{ChildNode, HexMap};
use hexgame::addon::hexagon_map_type::{HexagonMapTypeRust, MapType, MapTypeDiscriminator, MapTypeProperty};
use hexgame::addon::hexagon_node_2d::{HexagonNode2D, TileMapInfo};
use hexgame::addon::tile_map::{ConfigurationWarning, TileMapError, TileOffsetAxis, TileSetInfo};

fn hexagon_tiles(offset_axis: TileOffsetAxis) -> TileSetInfo {
    TileSetInfo { hexagon_shape: true, stacked_offset_layout: true, offset_axis }
}

#[test]
fn hexagon_node_tilemap_position_follows_the_offset_axis() {
    let mut node = HexagonNode2D::init();
    node.set_cell(Cell::new_axial(1, 0));
    assert_eq!(node.get_tilemap_position(), Err(TileMapError::NoTileSet));
    node.tilemap = Some(TileMapInfo { tile_set: Some(hexagon_tiles(TileOffsetAxis::Vertical)) });
    assert_eq!(node.get_tilemap_position(), Ok(Vector2i::new(1, 1)));
    node.tilemap = Some(TileMapInfo { tile_set: Some(hexagon_tiles(TileOffsetAxis::Horizontal)) });
    assert_eq!(node.get_tilemap_position(), Ok(Vector2i::new(1, 0)));
    node.tilemap = Some(TileMapInfo { tile_set: Some(hexagon_tiles(TileOffsetAxis::Unknown(5))) });
    assert_eq!(node.get_tilemap_position(), Err(TileMapError::UnknownOffsetAxis(5)));
}

#[test]
fn hexagon_node_set_from_tilemap_position() {
    let mut node = HexagonNode2D::init();
    node.tilemap = Some(TileMapInfo { tile_set: Some(hexagon_tiles(TileOffsetAxis::Vertical)) });
    assert_eq!(node.set_from_tilemap_position(Vector2i::new(3, 4)), Ok(()));
    assert_eq!(node.cell, Cell::new_axial(3, 2));
    node.tilemap = Some(TileMapInfo {
        tile_set: Some(TileSetInfo { hexagon_shape: false, stacked_offset_layout: true, offset_axis: TileOffsetAxis::Vertical }),
    });
    assert_eq!(node.set_from_tilemap_position(Vector2i::new(0, 0)), Err(TileMapError::NotHexagonShape));
    assert_eq!(node.cell, Cell::new_axial(3, 2));
}

#[test]
fn hexagon_node_neighbours_on_the_tile_map() {
    let mut node = HexagonNode2D::init();
    node.tilemap = Some(TileMapInfo { tile_set: Some(hexagon_tiles(TileOffsetAxis::Vertical)) });
    assert_eq!(node.get_neighbour_flat(4), Ok(Vector2i::new(0, 1)));
    assert_eq!(node.get_neighbour_flat(2), Err(TileMapError::InvalidFlatDirection));
    node.tilemap = Some(TileMapInfo { tile_set: Some(hexagon_tiles(TileOffsetAxis::Horizontal)) });
    assert_eq!(node.get_neighbour_flat(2), Ok(Vector2i::new(1, 0)));
    assert_eq!(node.get_neighbour_flat(0), Err(TileMapError::InvalidPointyDirection));
}

#[test]
fn hexagon_node_coordinates_and_properties() {
    let mut node = HexagonNode2D::init();
    node.set_q(3);
    node.set_r(-1);
    assert_eq!((node.get_q(), node.get_r(), node.get_s()), (3, -1, -2));
    node.set_s(5);
    assert_eq!(node.cell, Cell::new_axial(-4, -1));
    assert!(node.set_property("H_Q", 7));
    assert_eq!(node.get_property("H_Q"), Some(7));
    assert_eq!(node.get_property("H_S"), Some(-6));
    assert!(!node.set_property("Q", 1));
    assert_eq!(node.get_property("cell"), None);
    assert_eq!(node.update_position(), None);
}

#[test]
fn hexagon_node_configuration_warnings() {
    let mut node = HexagonNode2D::init();
    assert_eq!(node.get_configuration_warnings(), vec![ConfigurationWarning::ParentNotTileMapLayer]);
    node.tilemap = Some(TileMapInfo { tile_set: None });
    assert_eq!(node.get_configuration_warnings(), vec![ConfigurationWarning::NoTileSet]);
    node.tilemap = Some(TileMapInfo {
        tile_set: Some(TileSetInfo { hexagon_shape: false, stacked_offset_layout: false, offset_axis: TileOffsetAxis::Vertical }),
    });
    assert_eq!(
        node.get_configuration_warnings(),
        vec![ConfigurationWarning::ShapeNotHexagon, ConfigurationWarning::LayoutNotStackedOffset]
    );
}

#[test]
fn hex_map_configuration_warnings() {
    let mut map = HexMap::new();
    assert_eq!(map.get_configuration_warnings(None).len(), 7);
    map.hover_layer = Some(1);
    map.selection_layer = Some(2);
    map.attackable_layer = Some(3);
    map.remaining_movement_layer = Some(4);
    map.attackable_range_layer = Some(5);
    assert_eq!(
        map.get_configuration_warnings(Some(hexagon_tiles(TileOffsetAxis::Vertical))),
        vec![ConfigurationWarning::MovementRangeLayerNotSet]
    );
}

#[test]
fn hex_map_finds_nodes_at_a_cell() {
    let children = vec![
        ChildNode { id: 1, cell: Some(Cell::new_axial(1, 1)), queued_for_deletion: false },
        ChildNode { id: 2, cell: None, queued_for_deletion: false },
        ChildNode { id: 3, cell: Some(Cell::new_axial(1, 1)), queued_for_deletion: true },
        ChildNode { id: 4, cell: Some(Cell::new_axial(2, 1)), queued_for_deletion: false },
        ChildNode { id: 5, cell: Some(Cell::new_axial(1, 1)), queued_for_deletion: false },
    ];
    assert_eq!(HexMap::get_nodes_at_cell(&children, Cell::new_axial(1, 1)), vec![1, 5]);
    assert_eq!(
        HexMap::get_nodes_at_tilemap_coordinates(&children, Some(hexagon_tiles(TileOffsetAxis::Vertical)), Vector2i::new(1, 2)),
        Ok(vec![1, 5])
    );
    assert_eq!(
        HexMap::get_nodes_at_tilemap_coordinates(&children, None, Vector2i::new(1, 2)),
        Err(TileMapError::NoTileSet)
    );
}

#[test]
fn map_type_properties() {
    let mut resource = HexagonMapTypeRust::init();
    assert_eq!(resource.get_property("type"), Some(MapTypeProperty::Type(MapTypeDiscriminator::Circle)));
    assert_eq!(resource.get_property("map_radius"), Some(MapTypeProperty::MapRadius(1)));
    assert!(resource.set_property("map_radius", "", 6));
    assert_eq!(resource.map_type, MapType::Circle { map_radius: 6 });
    assert!(resource.set_property("type", "Circle", 0));
    assert!(!resource.set_property("type", "Square", 0));
    assert!(!resource.set_property("size", "", 2));
    assert_eq!(resource.map_type, MapType::Circle { map_radius: 6 });
}
