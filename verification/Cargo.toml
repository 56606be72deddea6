[package]
name = "rsledger"
version = "0.1.0"
edition = "2021"
publish = false

[dependencies]
chrono = "0.4"
regex = "1"
csv = "1"
toml = "0.8"
serde = { version = "1", features = ["derive"] }
dirs = "5"
clap = { version = "4", features = ["derive"] }
thiserror = "1"
