pub mod material;
pub mod simulation;
pub mod interactions;
pub mod chunk_sync;
pub mod fire;
pub mod collision;
pub mod fluid;
pub mod explosion;
