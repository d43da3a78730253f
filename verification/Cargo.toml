[package]
name = "ips_gui"
version = "0.1.0"
edition = "2021"
publish = false

[dependencies]
serde = { version = "1", features = ["derive"] }
serde_json = "1"
fuzzy-matcher = "0.3"
regex = "1"
walkdir = "2"
rayon = "1"
csv = "1"
image = { version = "0.25", default-features = false, features = ["png", "jpeg", "webp"] }
eframe = { version = "0.29", default-features = false, features = ["default_fonts", "glow", "x11"] }
