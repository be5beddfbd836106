//! Dungeon layouts by binary space partitioning: an area is cut into a tree
//! of subdungeons, every leaf gets a room, and corridors join the rooms from
//! the leaves up to the root. A layout is a function of the seed, the area
//! and the settings.

pub mod bsp_generator;
pub mod corridor;
pub mod draws;
pub mod invariants;
pub mod laws;
pub mod partition;
pub mod placement;
pub mod room;
pub mod settings;
pub mod stages;
pub mod tree;

pub use crate::bsp_generator::BSPGenerator;
pub use crate::partition::SubDungeon;
pub use crate::room::{DungeonGenerator, GenerateError, Rectangle, Room, RoomType};
pub use crate::settings::Settings;
