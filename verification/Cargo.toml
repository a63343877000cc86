[package]
name = "ssbu_twitch_integration"
version = "0.1.0"
edition = "2021"
publish = false

[dependencies]
serde = { version = "=1.0.229", features = ["derive"] }
toml = "=0.5.11"
lazy_static = "=1.5.1"
skyline = "=0.6.0"
