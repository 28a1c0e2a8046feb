[package]
name = "tuner-core"
version = "0.1.0"
edition = "2021"
publish = false

[dependencies]
serde = { version = "1", features = ["derive"] }
serde_json = "1"
realfft = "3"
rustfft = "6"
log = "0.4"
