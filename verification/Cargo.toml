[package]
name = "kunger"
version = "0.1.0"
edition = "2021"
publish = false

[dependencies]
chrono = "*"
crossterm = "*"
ratatui = "*"
dirs = "*"
rusqlite = { version = "*", features = ["bundled"] }
serde = { version = "*", features = ["derive"] }
serde_json = "*"
serde_yaml = "*"
csv = "*"
tokio = { version = "*", features = ["rt-multi-thread", "macros", "process", "time", "io-util", "sync"] }
tokio-util = "*"
futures = "*"
async-trait = "*"
thiserror = "*"
