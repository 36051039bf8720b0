//! Simulation core of a turn-based dungeon crawler: a tile grid, room and
//! corridor generation, visibility and pathing support, an entity store and
//! the fixed-order turn pipeline that moves, fights and handles items.

pub mod rect;
pub mod buffer;
pub mod components;
pub mod map;
pub mod rng;
pub mod gamelog;
pub mod world;
pub mod systems;
pub mod state;
pub mod spawner;
