[package]
name = "score_cli"
version = "0.1.0"
edition = "2021"
publish = false

[dependencies]
chrono = { version = "0.4", features = ["serde"] }
serde = { version = "1", features = ["derive"] }
serde_json = "1"
tabled = "0.15"
uuid = { version = "1", features = ["v4", "serde"] }
