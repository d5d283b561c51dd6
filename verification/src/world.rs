pub mod chunk;
pub mod biome;
pub mod terrain;
pub mod chunk_manager;
