[package]
name = "synapse"
version = "0.1.0"
edition = "2021"
publish = false

[dependencies]
rusqlite = { version = "*", features = ["bundled"] }
chrono = "*"
uuid = { version = "*", features = ["v4"] }
pulldown-cmark = "*"
serde = { version = "*", features = ["derive"] }
serde_json = "*"
