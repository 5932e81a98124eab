[package]
name = "audio_relay"
version = "0.1.0"
edition = "2021"
publish = false

[dependencies]
anyhow = "1"
bitcode = "0.6"
clap = { version = "4", features = ["derive"] }
cpal = "0.15"
dashmap = "5"
once_cell = "1"
