pub mod chunk_renderer;
