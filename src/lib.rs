//! Simulation core of a terminal dungeon crawler: procedural level
//! generation, the tile and visibility model, and the movement rules.

pub mod dice;
pub mod entities;
pub mod error;
pub mod events;
pub mod sight;
pub mod state;
pub mod tiling;
pub mod world;
