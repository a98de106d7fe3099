[package]
name = "relay_core"
version = "0.1.0"
edition = "2021"
publish = false

[dependencies]
hex = "*"
r2d2 = "*"
r2d2_sqlite = { version = "*", features = ["bundled"] }
governor = "*"
tokio = { version = "*", features = ["full"] }
serde = { version = "*", features = ["derive"] }
serde_json = "*"
