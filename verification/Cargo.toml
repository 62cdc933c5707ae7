[package]
name = "raft_store"
version = "0.1.0"
edition = "2021"
publish = false

[dependencies]
serde = { version = "=1.0.229", features = ["derive"] }
serde_json = "=1.0.151"
indexmap = { version = "=2.14.2", features = ["serde"] }
bincode = "=1.3.3"
heed = "=0.22.1"
