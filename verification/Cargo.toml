[package]
name = "brdb"
version = "0.1.0"
edition = "2021"
publish = false

[dependencies]
blake3 = { version = "=1.8.7", features = ["pure"] }
zstd = "=0.13.4"
rmp = "=0.8.15"
indexmap = "=2.14.2"
anyhow = "=1.0.104"
clap = { version = "=4.6.7", features = ["derive"] }
