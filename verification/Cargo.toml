[package]
name = "turbotransfer_core"
version = "0.1.0"
edition = "2021"
publish = false

[dependencies]
crc32c = "=0.6.9"
xxhash-rust = { version = "=0.8.19", features = ["xxh64"] }
uuid = { version = "=1.29.0", features = ["v4", "serde"] }
serde = { version = "=1.0.229", features = ["derive"] }
serde_json = "=1.0.154"
bincode = "=1.3.3"
bytes = "=1.12.1"
tokio = { version = "=1.54.1", features = ["net", "io-util", "time", "sync", "rt", "rt-multi-thread", "macros"] }
log = "=0.4.35"
parking_lot = "=0.12.5"
socket2 = "=0.5.10"
chrono = "=0.4.45"
async-trait = "=0.1.92"
async-channel = "=2.5.0"
thiserror = "=1.0.69"
clap = { version = "4", features = ["derive"] }
