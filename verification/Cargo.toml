[package]
name = "electric_eye_map"
version = "0.1.0"
edition = "2021"
publish = false

[dependencies]
rusqlite = { version = "*", features = ["bundled"] }
serde_json = "*"
image = { version = "*", default-features = false, features = ["tiff"] }
