[package]
name = "crawl_stats"
version = "0.1.0"
edition = "2021"
publish = false

[dependencies]
regex = "1"
chrono = "0.4"
futures = "0.3"
tokio = { version = "1", features = ["rt-multi-thread", "macros"] }
reqwest = { version = "0.12", default-features = false }
napi = { version = "2", features = ["async"] }
napi-derive = "2"
