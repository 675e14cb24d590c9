[package]
name = "leknet"
version = "0.1.0"
edition = "2021"
publish = false

[dependencies]
bevy = { version = "0.11", default-features = false }
bevy_app = "0.11"
bevy_ecs = "0.11"
bevy_reflect = "0.11"
bevy_renet = "0.0.9"
renet = "0.0.13"
bincode = "1.3"
serde = { version = "1", features = ["derive"] }
