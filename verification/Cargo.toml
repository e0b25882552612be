[package]
name = "aether_convert"
version = "0.1.0"
edition = "2021"
publish = false

[dependencies]
rand = "0.9"
chrono = "0.4"
tokio = { version = "1", features = ["process", "io-util", "fs", "sync", "rt-multi-thread", "macros", "time"] }
futures = "0.3"
serde = { version = "1", features = ["derive"] }
