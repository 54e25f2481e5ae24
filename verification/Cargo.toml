[package]
name = "fuxi"
version = "0.1.0"
edition = "2021"
publish = false

[dependencies]
chrono = "*"
clap = "*"
config = "*"
dirs = "*"
serde = { version = "*", features = ["derive"] }
toml = "*"
