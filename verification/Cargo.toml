[package]
name = "harmonia_core"
version = "0.1.0"
edition = "2021"
publish = false

[dependencies]
base64 = "0.22"
percent-encoding = "2"
rand = "0.8"
sha2 = "0.10"
rusqlite = { version = "0.32", features = ["bundled"] }
serde = { version = "1", features = ["derive"] }
serde_json = "1"
lofty = "0.22"
walkdir = "2"
rayon = "1"
notify = "6"
log = "0.4"
thiserror = "1"
env_logger = "0.11"
