[package]
name = "hexboltmq"
version = "0.1.0"
edition = "2021"
publish = false

[dependencies]
tokio = { version = "1", features = ["macros", "net", "rt", "rt-multi-thread", "sync", "time"] }
uuid = { version = "1", features = ["v4"] }
log = "0.4"
env_logger = "*"
serde = { version = "1", features = ["derive"] }
bincode = "1"
rocksdb = { version = "*", default-features = false }
metrics = "*"
metrics-exporter-prometheus = { version = "*", default-features = false }
