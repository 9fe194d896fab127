[package]
name = "onedrive_fuse"
version = "0.1.0"
edition = "2021"
publish = false

[dependencies]
anyhow = "1"
bytes = "1"
log = "0.4"
lru-cache = "0.1"
onedrive-api = "0.8"
reqwest = { version = "0.11", default-features = false }
serde = { version = "1", features = ["derive"] }
sharded-slab = "0.1"
tempfile = "3"
time = "0.1"
tokio = { version = "1", features = ["fs", "io-util", "macros", "rt", "rt-multi-thread", "sync", "time"] }
