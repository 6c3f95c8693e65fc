[package]
name = "audio_labeling"
version = "0.1.0"
edition = "2021"
publish = false

[dependencies]
base64 = "*"
symphonia = { version = "*", features = ["ogg", "vorbis"] }
aubio-rs = "*"
hound = "*"
vorbis-encoder = "*"
serde = { version = "*", features = ["derive"] }
serde_json = "*"
log = "*"
tokio = { version = "*", features = ["rt-multi-thread", "process", "fs", "macros", "io-util"] }
