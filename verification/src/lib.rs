//! A block-building voxel world: chunked block storage, falling-sand physics,
//! inventory and crafting, combat rules and mesh face culling, each stated
//! and proved over mathematical models.

pub mod world;
pub mod physics;
pub mod inventory;
pub mod combat;
pub mod rendering;
pub mod game;
pub mod player;
