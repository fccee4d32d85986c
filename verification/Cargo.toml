[package]
name = "jpm"
version = "0.1.0"
edition = "2021"
publish = false

[dependencies]
sha2 = "*"
hex = "*"
flate2 = "*"
tar = "*"
serde = { version = "*", features = ["derive"] }
serde_json = "*"
reqwest = { version = "*", default-features = false }
tokio = { version = "*", features = ["rt-multi-thread", "macros", "fs", "sync", "time", "io-util"] }
clap = { version = "*", features = ["derive"] }
colored = "*"
dialoguer = "*"
futures-util = "*"
anyhow = "*"
