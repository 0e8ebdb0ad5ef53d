[package]
name = "symbaker"
version = "0.1.0"
edition = "2021"
publish = false

[dependencies]
regex = "1"
toml = "0.8"
serde = { version = "1", features = ["derive"] }
serde_json = "1"
figment = { version = "0.10", features = ["toml", "env"] }
syn = { version = "2", features = ["full"] }
quote = "1"
proc-macro2 = "1"
