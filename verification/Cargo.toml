[package]
name = "talk_core"
version = "0.1.0"
edition = "2021"
publish = false

[dependencies]
uuid = { version = "=1.27.0", features = ["v4", "serde"] }
chrono = "=0.4.45"
serde = { version = "=1.0.229", features = ["derive"] }
serde_json = "=1.0.151"
tokio = { version = "=1.53.2", features = ["rt-multi-thread", "macros", "sync", "net", "time"] }
axum = { version = "=0.7.9", features = ["ws"] }
futures-util = "=0.3.34"
redis = { version = "=0.27.6", features = ["tokio-comp"] }
dotenvy = "0.15"
