[package]
name = "rustboard"
version = "0.1.0"
edition = "2021"
publish = false

[dependencies]
slugify = "0.1"
pipewire = "0.8"
libspa-sys = "0.8"
rodio = { version = "0.20", default-features = false, features = ["flac", "vorbis", "wav", "mp3"] }
ebur128 = "0.1"
axum = "0.7"
tokio = { version = "1", features = ["full"] }
askama = "0.12"
serde = { version = "1", features = ["derive"] }
tracing-subscriber = { version = "0.3", features = ["env-filter"] }
