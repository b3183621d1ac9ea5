[package]
name = "mm_core"
version = "0.1.0"
edition = "2021"
publish = false

[dependencies]
clap = { version = "4", features = ["derive"] }
cpal = "0.15"
hound = "3"
serde = { version = "1", features = ["derive"] }
thiserror = "2"
toml = "0.8"
