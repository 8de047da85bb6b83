[package]
name = "logrustate"
version = "0.1.0"
edition = "2021"
publish = false

[dependencies]
anyhow = "1"
chrono = "0.4"
clap = { version = "4", features = ["derive"] }
colored = "2"
flate2 = "1"
glob = "0.3"
serde = { version = "1", features = ["derive"] }
toml = "0.8"
