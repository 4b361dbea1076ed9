//! Values the game systems share.
pub mod input;
pub mod physics_state;
