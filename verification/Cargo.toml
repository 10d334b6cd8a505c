[package]
name = "bu_mp3"
version = "0.1.0"
edition = "2021"
publish = false

[dependencies]
anyhow = "1"
base64 = "0.22"
crossterm = "0.28"
id3 = "1"
image = { version = "0.25", default-features = false, features = ["png", "jpeg", "gif", "bmp", "webp", "tiff"] }
prost = "0.13"
ratatui = "0.29"
rodio = "0.20"
serde = { version = "1", features = ["derive"] }
serde_json = "1"
walkdir = "2"
