[package]
name = "stn_updater"
version = "0.1.0"
edition = "2021"
publish = false

[dependencies]
anyhow = "1"
async-trait = "0.1"
bytes = "1"
futures = "0.3"
tokio = { version = "1", features = ["io-util", "time", "rt", "macros"] }
tokio-util = { version = "0.7", features = ["codec"] }

[dev-dependencies]
crc = "3"
