//! Rules of a hexagon-grid tactics game: hexagon coordinates, units and
//! their attacks, the entity world the game plays in, and path finding.
pub mod components;
pub mod frontier;
pub mod world;
pub mod gameworld;
pub mod legion;
pub mod addon;
pub mod hexgrid;
pub mod resources;
pub mod systems;
pub mod hexfield;
pub mod nodes;
pub mod unit;
pub mod game_state;
