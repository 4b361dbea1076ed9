//! The logic behind the nodes of the game scene.
pub mod dummy_unit;
pub mod hexfield;
pub mod map_ui;
pub mod unit;
