[package]
name = "e_agent"
version = "0.1.0"
edition = "2021"
publish = false

[dependencies]
reqwest = { version = "0.12", default-features = false, features = ["json", "stream"] }
serde_json = { version = "1", features = ["float_roundtrip"] }
tokio = { version = "1", features = ["sync"] }
