[package]
name = "ynap"
version = "0.1.0"
edition = "2021"
publish = false

[dependencies]
chrono = { version = "0.4", default-features = false, features = ["std"] }
clap = "2"
csv = "1"
encoding = "0.2"
Inflector = "0.11"
regex = "1"
serde = { version = "1", features = ["derive"] }
serde_regex = "1"
serde_yaml = "0.8"
thiserror = "1"
