[package]
name = "omp_tui"
version = "0.1.0"
edition = "2021"
publish = false

[dependencies]
flume = "=0.12.0"
im = "=15.1.0"
parking_lot = "=0.13.0"
serde_json = "=1.0.154"
smallvec = "=2.0.0-alpha.11"
smol_bitmap = "=0.3.2"
strum = { version = "=0.28.0", features = ["derive"] }
thiserror = "=2.0.21"
tokio = { version = "=1.54.1", features = ["io-util", "net", "rt", "sync", "time", "macros"] }
tracing = "=0.1.44"
xutf = "=1.0.0"
