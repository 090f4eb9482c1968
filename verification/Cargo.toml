[package]
name = "note_plan"
version = "0.1.0"
edition = "2021"
publish = false

[dependencies]
chrono = "0.4"
uuid = { version = "1", features = ["v4"] }

[dev-dependencies]
serde_json = "1"
