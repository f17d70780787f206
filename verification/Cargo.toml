[package]
name = "claudia"
version = "0.1.0"
edition = "2021"
publish = false

[dependencies]
serde = { version = "1", features = ["derive"] }
serde_json = "1"
chrono = "0.4"
dirs = "*"
glob = "0.3"
walkdir = "2"
log = "0.4"
once_cell = "1"
rayon = "1"
anyhow = "1"
tokio = { version = "1", features = ["rt", "rt-multi-thread"] }
