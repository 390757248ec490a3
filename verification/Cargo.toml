[package]
name = "ce_envs"
version = "0.1.0"
edition = "2021"
publish = false

[dependencies]
rand = { version = "0.9", features = ["small_rng"] }
quick-xml = "0.37"
serde = { version = "1", features = ["derive"] }
serde_json = "1"
chrono = "0.4"
clap = { version = "4", features = ["derive"] }
csv = "1"
itertools = "0.14"
indexmap = "2"
