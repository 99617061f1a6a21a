[package]
name = "tile_level"
version = "0.1.0"
edition = "2021"
publish = false

[dependencies]
serde = { version = "=1.0.229", features = ["derive"] }
serde_json = "=1.0.154"
bevy = { version = "0.16", default-features = false, features = ["std", "bevy_asset", "bevy_core_pipeline", "bevy_gizmos", "bevy_log", "bevy_render", "bevy_sprite", "bevy_window"] }
bevy_rapier2d = { version = "0.30", default-features = false, features = ["dim2", "debug-render-2d"] }
