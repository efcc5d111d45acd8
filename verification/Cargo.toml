[package]
name = "bse"
version = "0.1.0"
edition = "2021"
publish = false

[dependencies]
smallvec = "=1.16.4"
pathfinding = "=4.16.0"
dot_vox = "=5.2.0"
ron = "=0.10.1"
serde = { version = "=1.0.229", features = ["derive"] }
thiserror = "=2.0.21"
bevy = { version = "=0.17.3", default-features = false, features = ["std", "bevy_asset", "bevy_color", "bevy_image", "bevy_mesh", "bevy_pbr", "bevy_camera", "bevy_light", "bevy_core_pipeline", "bevy_render", "bevy_gizmos", "bevy_log", "bevy_window"] }
bevy_ecs = { version = "=0.17.3", default-features = false }
bevy_mesh = { version = "=0.17.3", default-features = false }
bevy_image = { version = "=0.17.3", default-features = false }
bevy_pbr = { version = "=0.17.3", default-features = false }
bevy_enhanced_input = { version = "=0.19.3", default-features = false }
