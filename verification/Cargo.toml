[package]
name = "covdir"
version = "0.1.0"
edition = "2021"
publish = false

[dependencies]
anyhow = "1"
gha = "*"
serde = { version = "1", features = ["derive"] }
serde_json = { version = "1", features = ["preserve_order"] }
