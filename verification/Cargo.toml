[package]
name = "base_lib"
version = "0.1.0"
edition = "2021"
publish = false

[dependencies]
object = "=0.40.0"
clap = { version = "=4.6.7", features = ["derive"] }
anyhow = "=1.0.104"
serde = { version = "1", features = ["derive"] }
serde_json = "1"
serde_yaml = "0.9"
