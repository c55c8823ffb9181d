[package]
name = "constellation_peer"
version = "0.0.0"
edition = "2021"
publish = false

[dependencies]
bitvec = "1"
clap = "4"
log = "0.4"
serde = { version = "1", features = ["derive"] }
serde_yaml = "0.9"
uuid = { version = "1", features = ["v5", "serde"] }
