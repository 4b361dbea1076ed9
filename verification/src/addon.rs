//! The hexagon map of the game editor: axial hexagon coordinates, their
//! offset coordinates on a tile map, and the nodes placed on the map.
pub mod cell;
pub mod hex_map;
pub mod hexagon_map_type;
pub mod hexagon_node_2d;
pub mod names;
pub mod tile_map;
