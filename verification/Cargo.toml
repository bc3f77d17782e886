[package]
name = "peer_archive"
version = "0.1.0"
edition = "2021"
publish = false

[dependencies]
prost = "=0.14.4"
zstd = "=0.14.3"
log = "=0.4.35"
anyhow = "=1.0.104"
simple_logger = "=5.2.0"
clap = { version = "=4.6.7", features = ["derive"] }
async-nats = "=0.51.0"
futures = "=0.3.34"
tokio = { version = "=1.54.1", features = ["full"] }
