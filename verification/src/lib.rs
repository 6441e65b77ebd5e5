pub mod cell;
pub mod chunk_view;
pub mod double_buffer;
pub mod grid;
pub mod laws;
pub mod rule_laws;
pub mod performance_monitor;
pub mod rules;
mod random;
pub mod texture;
pub mod tool;
pub mod vec2;
pub mod world_gen;
pub mod world_view;
pub mod world;

pub use cell::Cell;
pub use chunk_view::{ChunkView, ChunkViewMut};
pub use vec2::{ivec2, IVec2};
pub use world::{Error, SaveData, Simulation};
pub use world_view::{WorldView, WorldViewMut};
pub use world_gen::{EmptyWorldGenerator, RandomWorldGenerator, WorldGenerator};
