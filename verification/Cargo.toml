[package]
name = "falcon"
version = "0.1.0"
edition = "2021"
publish = false

[dependencies]
triangle = "*"
serde = { version = "1", features = ["derive"] }
serde_json = "1"
rand = "0.8"
rayon = "1"
futures = "0.3"
tokio = { version = "1", features = ["full"] }
parking_lot = "0.12"
thiserror = "1"
tracing = "0.1"
tracing-subscriber = "0.3"
dotenvy = "0.15"
