[package]
name = "log_reader"
version = "0.1.0"
edition = "2021"
publish = false

[dependencies]
chrono = { version = "0.4", features = ["serde"] }
clap = { version = "4", features = ["derive"] }
comfy-table = "7"
crossbeam = "0.8"
rand = "0.9"
serde = { version = "1", features = ["derive"] }
serde_json = "1"
