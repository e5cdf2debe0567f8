[package]
name = "thronglets"
version = "0.1.0"
edition = "2021"
publish = false

[dependencies]
dirs = "*"
rusqlite = { version = "*", features = ["bundled"] }

[dev-dependencies]
serde_json = "*"
