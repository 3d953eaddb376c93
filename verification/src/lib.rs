//! A minimal Breakout-style arcade simulation: a paddle deflects a ball to
//! destroy a grid of bricks inside a fixed-size playfield.
//!
//! All coordinates are fixed-point integers with [`geom::UNITS_PER_PIXEL`]
//! units per pixel, which keeps every quantity of the game exact. Entities
//! live in a `hecs` world accessed through the contracts of [`store`]; the
//! per-frame systems in [`systems`] and the game state in [`state`] are
//! verified against those contracts. Rendering, input polling and window
//! management are left to the embedding program, which feeds key states in
//! and draws the shape list out.

pub mod geom;
pub mod store;
pub mod systems;
pub mod state;
pub mod laws;
