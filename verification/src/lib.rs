//! A fixed-timestep tile platformer core: a tile grid, swept collision of one
//! actor against its solid tiles, and a camera clamped to the world.
//!
//! Everything is computed in integers. Positions, sizes and speeds are in
//! world units, of which [`player::UNITS_PER_PIXEL`] make a screen pixel;
//! time is in milliseconds. Positions that would leave the range of `i32`
//! stay at its ends.

pub mod camera;
pub mod collision;
pub mod game;
pub mod keyboard;
pub mod player;
pub mod player_components;
pub mod rect;
pub mod sprite;
pub mod tile;
pub mod timer;
