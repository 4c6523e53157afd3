[package]
name = "shard_state_sync"
version = "0.1.0"
edition = "2021"
publish = false

[dependencies]
cpq = "*"
rand = "*"
serde = { version = "*", features = ["derive"] }
crossbeam-channel = "*"
rayon = "*"

[dev-dependencies]
bcs = "*"
