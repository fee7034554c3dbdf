[package]
name = "parfetch"
version = "0.1.0"
edition = "2021"
publish = false

[dependencies]
url = "2"
reqwest = { version = "0.12", default-features = false, features = ["stream"] }
tokio = { version = "1", features = ["fs", "io-util", "rt-multi-thread", "macros"] }
futures = "0.3"
thiserror = "2"
