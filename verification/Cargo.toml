[package]
name = "rman_wad"
version = "0.1.0"
edition = "2021"
publish = false

[dependencies]
zstd = "*"
serde = { version = "*", features = ["derive"] }
serde_json = "*"
