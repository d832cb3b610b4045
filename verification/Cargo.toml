[package]
name = "kayche"
version = "0.1.0"
edition = "2021"
publish = false

[dependencies]
clap = { version = "4", features = ["derive"] }
console = "*"
serde = { version = "1", features = ["derive"] }
serde_yaml = "*"
thiserror = "*"
thiserror-ext = "*"
toml = "0.5"
