[package]
name = "jade_core"
version = "0.1.0"
edition = "2021"
publish = false

[dependencies]
chrono = "0.4"
croner = "2"
uuid = { version = "1", features = ["v4"] }
anyhow = "1"
clap = { version = "4", features = ["derive"] }
serde = { version = "1", features = ["derive"] }
serde_json = "1"
serde_yaml = "0.9"
rusqlite = { version = "*", features = ["bundled"] }
ureq = "3"
dirs = "*"
sha2 = "0.10"
hex = "0.4"
thiserror = "*"
