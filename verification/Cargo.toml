[package]
name = "stead_core"
version = "0.1.0"
edition = "2021"
publish = false

[dependencies]
anyhow = "1"
chrono = "0.4"
clap = { version = "4", features = ["derive"] }
serde_json = "1"
twox-hash = "1"
uuid = { version = "1", features = ["v5"] }
walkdir = "2"
