//! A turn-based dungeon crawler engine: procedural enemy placement, fog of war
//! revealed along straight paths, probabilistic combat and floor progression.

pub mod grid;
pub mod raster;
pub mod floor;
pub mod random;
pub mod placement;
pub mod dungeon;
pub mod combat;
pub mod game;
pub mod command;
