[package]
name = "cs2_friendwatch"
version = "0.1.0"
edition = "2021"
publish = false

[dependencies]
dirs = "=5.0.1"
notify-rust = { version = "=4.18.2", default-features = false, features = ["d"] }
open = "=5.4.5"
rodio = { version = "=0.20.1", default-features = false, features = ["mp3", "wav", "vorbis", "flac"] }
serde = { version = "=1.0.229", features = ["derive"] }
serde_json = "=1.0.154"
steamworks = { version = "=0.12.2", features = ["raw-bindings"] }
