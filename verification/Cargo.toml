[package]
name = "rms"
version = "0.1.0"
edition = "2021"
publish = false

[dependencies]
axum = { version = "0.8", features = ["multipart"] }
base64 = "0.22"
csv = "1"
jiff = "0.2"
mcap = { version = "*", default-features = false }
ring = "0.17"
sha2 = "0.10"
uuid = { version = "1", features = ["v4"] }
anyhow = "1"
argh = "*"
async-trait = "0.1"
atomicwrites = "*"
cargo_metadata = "*"
directories = "*"
futures = "0.3"
memmap2 = "*"
parking_lot = "0.12"
rayon = "1"
serde = { version = "1", features = ["derive"] }
serde_json = "1"
tempfile = "3"
thiserror = "2"
tokio = { version = "1", features = ["full"] }
tokio-stream = "0.1"
tokio-util = { version = "0.7", features = ["io"] }
tracing = "0.1"
zip = { version = "*", default-features = false, features = ["deflate"] }
