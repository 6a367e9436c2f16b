[package]
name = "mmr_hints"
version = "0.1.0"
edition = "2021"
publish = false

[dependencies]
serde = { version = "=1.0.229", features = ["derive"] }
serde_json = "=1.0.151"
clap = { version = "=4.5.61", features = ["derive"] }
thiserror = "=2.0.21"
