[package]
name = "typage"
version = "0.1.0"
edition = "2021"
publish = false

[dependencies]
anyhow = "1"
clap = { version = "4", features = ["derive"] }
notify = "*"
serde = { version = "1", features = ["derive"] }
sha2 = "0.10"
toml = "*"
walkdir = "2"
