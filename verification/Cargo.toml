[package]
name = "suno_core"
version = "0.1.0"
edition = "2021"
publish = false

[dependencies]
base64 = "0.22"
glob = "0.3"
id3 = { version = "1", default-features = false }
rookie = { version = "0.5", default-features = false }
serde = { version = "1", features = ["derive"] }
serde_json = "1"
