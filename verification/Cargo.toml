[package]
name = "mycelium"
version = "0.1.0"
edition = "2021"
publish = false

[dependencies]
clap = { version = "*", features = ["derive"] }
csv = "*"
reqwest = { version = "*", default-features = false }
serde_json = "*"
thiserror = "*"
tokio = { version = "*", features = ["rt-multi-thread", "macros", "fs", "io-util", "sync", "time"] }
zip = "*"
