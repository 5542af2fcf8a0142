[package]
name = "spechurl"
version = "0.1.0"
edition = "2021"
publish = false

[dependencies]
serde_yaml = "0.9"
serde_json = "1"
clap = { version = "4", features = ["derive"] }
thiserror = "2"
