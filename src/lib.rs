pub mod heuristic;
pub mod laws;
pub mod line_world_16;
pub mod search;
pub mod spawn;
pub mod world;

pub use line_world_16::LineWorld16;
pub use world::{Coord, Dir, Tile, World};
