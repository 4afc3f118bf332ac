[package]
name = "beambuilder"
version = "0.1.0"
edition = "2021"
publish = false

[dependencies]
bevy_platform = "0.17"
bevy = { version = "0.17", default-features = false, features = ["std", "bevy_asset", "bevy_state", "bevy_gizmos", "bevy_render", "bevy_core_pipeline", "bevy_sprite", "bevy_sprite_render", "bevy_ui", "bevy_ui_render", "bevy_text", "bevy_window", "default_font", "multi_threaded"] }
bevy_common_assets = { version = "0.14", features = ["ron"] }
nalgebra = "0.33"
clap = { version = "4", features = ["derive"] }
serde = { version = "1", features = ["derive"] }
anyhow = "1"
thiserror = "2"
