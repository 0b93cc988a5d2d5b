[package]
name = "bitcask"
version = "0.1.0"
edition = "2021"
publish = false

[dependencies]
bincode = "1"
bytes = { version = "1", features = ["serde"] }
chrono = "0.4"
crossbeam = "0.8"
crossbeam-skiplist = "0.1"
lru = "*"
memmap2 = "0.9"
parking_lot = "0.12"
serde = { version = "1", features = ["derive"] }
thiserror = "1"
tokio = { version = "1", features = ["sync"] }
