[package]
name = "lynceus"
version = "0.1.0"
edition = "2021"
publish = false

[dependencies]
camino = "1"
clap = { version = "4", features = ["derive", "env"] }
humantime = "2"
reqwest = { version = "0.12", default-features = false }
serde_json = "1"
