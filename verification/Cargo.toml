[package]
name = "zankyou"
version = "0.1.0"
edition = "2021"
publish = false

[dependencies]
crossterm = "*"
smallvec = "1"
serde = { version = "1", features = ["derive"] }
serde_with = "3"
toml = "*"
thiserror = "*"
interprocess = "2"

[dev-dependencies]
serde_json = "1"
