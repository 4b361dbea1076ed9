//! Components attached to the entities of the game world.
pub mod cell;
pub mod cube;
pub mod field;
pub mod hexagon;
pub mod position;
pub mod unit;
