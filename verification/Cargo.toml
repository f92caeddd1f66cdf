[package]
name = "cache_rs"
version = "0.1.0"
edition = "2021"
publish = false

[dependencies]
lmdb = "0.8"
sled = "0.34"
bytes = "1"
bincode = "1"
serde = { version = "1", features = ["derive"] }
tokio = { version = "1", features = ["rt-multi-thread", "net", "io-util", "macros"] }
prost = "0.13"
flatbuffers = "*"
hex = "0.4"
thiserror = "1"
anyhow = "1"

[dev-dependencies]
tempfile = "3"
