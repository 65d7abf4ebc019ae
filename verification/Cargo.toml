[package]
name = "azalea_pathfinder"
version = "0.1.0"
edition = "2021"
publish = false

[dependencies]
atomic-write-file = "=0.3.1"
azalea = { version = "=0.16.0", default-features = false }
bevy_ecs = "=0.18.1"
bevy_tasks = { version = "=0.18.1", features = ["multi_threaded"] }
blake3 = "=1.8.7"
futures-lite = "=2.6.1"
parking_lot = "=0.12.5"
serde = { version = "1", features = ["derive"] }
serde_json = "1"
