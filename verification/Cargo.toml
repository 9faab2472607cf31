[package]
name = "taggenator"
version = "0.1.0"
edition = "2021"
publish = false

[dependencies]
chrono = "0.4"
pathdiff = "0.2"
rand = "0.8"
regex = "1"
rusqlite = { version = "*", features = ["bundled"] }
serde = { version = "1", features = ["derive"] }
serde_json = "1"
serde_yaml = "0.9"
shell-words = "1"
threadpool = "1"
toml = "*"
walkdir = "2"
warp = "0.3"
tokio = { version = "1", features = ["rt-multi-thread", "macros"] }
zip = { version = "*", default-features = false, features = ["deflate"] }
portpicker = "0.1"
