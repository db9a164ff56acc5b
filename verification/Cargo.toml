[package]
name = "robine"
version = "0.1.0"
edition = "2021"
publish = false

[dependencies]
semver = "1"
uuid = { version = "1", features = ["v4"] }
serde = { version = "1", features = ["derive"] }
serde_json = "1"
toml = "0.8"
