[package]
name = "fifo_ledger"
version = "0.1.0"
edition = "2021"
publish = false

[dependencies]
calamine = { version = "*", features = ["dates"] }
chrono = "*"
clap = { version = "*", features = ["derive"] }
env_logger = "*"
log = "*"
rust_decimal = "*"
serde = { version = "*", features = ["derive"] }
toml = "*"
