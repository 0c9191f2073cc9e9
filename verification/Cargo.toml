[package]
name = "ojo"
version = "0.1.0"
edition = "2021"
publish = false

[dependencies]
fnv = "1"
crossbeam-queue = "0.3"
anyhow = "1"
clap = { version = "4", features = ["derive"] }
serde = { version = "1", features = ["derive"] }
serde_json = "1"
tracing = "0.1"
tracing-subscriber = { version = "0.3", features = ["env-filter"] }
tokio = { version = "1", features = ["rt-multi-thread", "macros", "sync", "net"] }
axum = { version = "*", features = ["ws"] }
futures = "0.3"
tower-http = { version = "*", features = ["fs"] }
base64 = "0.22"
tempfile = "3"
notify = "*"
duckdb = "*"
arrow = { version = "*", default-features = false, features = ["ipc"] }
parquet = { version = "*", default-features = false, features = ["arrow"] }
libc = "0.2"
parking_lot = "0.12"
