[package]
name = "voxel_game"
version = "0.1.0"
edition = "2021"
publish = false

[dependencies]
bevy = { version = "=0.15.3", default-features = false, features = ["bevy_state", "bevy_pbr", "bevy_render", "bevy_core_pipeline", "bevy_text", "bevy_ui", "bevy_window", "bevy_color", "bevy_asset", "multi_threaded"] }
