[package]
name = "poker_solver"
version = "0.1.0"
edition = "2021"
publish = false

[dependencies]
rand = { version = "0.8", features = ["small_rng"] }
rayon = "1"
serde = { version = "1", features = ["derive"] }
serde_json = "1"
bincode = "1"
colored = "2"
smallvec = "1"
