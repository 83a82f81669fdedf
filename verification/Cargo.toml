[package]
name = "flac2mp3"
version = "0.1.0"
edition = "2021"
publish = false

[dependencies]
anyhow = "*"
clap = { version = "*", features = ["derive"] }
env_logger = "*"
indicatif = "*"
log = "*"
rayon = "*"
walkdir = "*"
