[package]
name = "nautilus_core"
version = "0.1.0"
edition = "2021"
publish = false

[dependencies]
crossbeam = "=0.8.5"
crossbeam-channel = "=0.5.17"
crossbeam-queue = "=0.2.3"
dashmap = "=5.5.3"
libc = "=0.2.191"
log = "=0.4.35"
nalgebra = "=0.32.6"
parking_lot = "=0.12.5"
rayon = "=1.12.0"
serde = { version = "=1.0.229", features = ["derive"] }
serde_json = "=1.0.154"
tokio = { version = "=1.54.1", features = ["net", "time", "io-util", "sync", "rt", "macros", "signal"] }
tracing = "=0.1.44"
