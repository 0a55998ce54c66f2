[package]
name = "tasklist"
version = "0.1.0"
edition = "2021"
publish = false

[dev-dependencies]
serde_json = { version = "=1.0.151", features = ["preserve_order"] }
