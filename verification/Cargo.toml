[package]
name = "peer_intake"
version = "0.1.0"
edition = "2021"
publish = false

[dependencies]
dashmap = "5"
fastrand = "2"
bincode = { version = "2", features = ["serde"] }
serde = { version = "1", features = ["derive"] }
thiserror = "1"
