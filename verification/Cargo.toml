[package]
name = "peer_sync"
version = "0.1.0"
edition = "2021"
publish = false

[dependencies]
uuid = { version = "=1.29.0", features = ["serde"] }
bevy = { version = "=0.14.2", default-features = false, features = ["bevy_state"] }
bevy_rapier2d = { version = "=0.27.0", default-features = false, features = ["dim2", "headless"] }

[dev-dependencies]
bincode = "=1.3.3"
serde = "=1.0.229"
