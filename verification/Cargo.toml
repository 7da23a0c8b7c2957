[package]
name = "agents-viewer"
version = "0.1.0"
edition = "2021"
publish = false

[dependencies]
sha2 = "0.10"
uuid = "1"
chrono = { version = "0.4", default-features = false, features = ["alloc", "std"] }
unicode-segmentation = "1"
serde_json = "1"
serde = { version = "1", features = ["derive"] }
base64 = "0.22"
memchr = "2"
clap = { version = "4", features = ["derive"] }
toml = "0.8"
dirs = "5"
dunce = "1"
walkdir = "2"
