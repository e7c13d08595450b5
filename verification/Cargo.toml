[package]
name = "vegafusion_core"
version = "0.1.0"
edition = "2021"
publish = false

[dependencies]
petgraph = "*"
deterministic-hash = "*"
serde = { version = "*", features = ["derive"] }
serde_json = "*"
