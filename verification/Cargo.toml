[package]
name = "audio-checker"
version = "0.1.0"
edition = "2021"
publish = false

[dependencies]
hound = "3.5"
lexopt = "0.3"
serde = { version = "1", features = ["derive"] }
serde_json = "1"
sha2 = "0.10"
