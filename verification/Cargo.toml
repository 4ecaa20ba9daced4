[package]
name = "poe_vis"
version = "0.1.0"
edition = "2021"
publish = false

[dependencies]
bevy_utils = "0.15"
serde = { version = "1", features = ["derive"] }
serde_json = "1"
toml = "0.8"
log = "0.4"
crossbeam-channel = "0.5"
quick-xml = { version = "0.37", features = ["serialize"] }
