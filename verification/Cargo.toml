[package]
name = "process_kernel"
version = "0.1.0"
edition = "2021"
publish = false

[dependencies]
blake3 = "*"
rand = "0.8"
ring = "*"
zip = "*"
serde = { version = "1", features = ["derive"] }
serde_json = "1"
