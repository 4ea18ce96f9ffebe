[package]
name = "order_book_feed"
version = "0.1.0"
edition = "2021"
publish = false

[dependencies]
alloy = { version = "=1.8.3", default-features = false }
axum = "=0.8.9"
chrono = { version = "=0.4.45", features = ["serde"] }
futures-util = "=0.3.34"
log = "=0.4.35"
notify = "=8.2.1"
serde = { version = "=1.0.229", features = ["derive"] }
serde_json = "=1.0.154"
tokio = { version = "=1.54.1", features = ["sync", "time", "net", "rt-multi-thread", "macros"] }
yawc = { version = "0.2", features = ["axum"] }
