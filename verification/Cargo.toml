[package]
name = "cairn"
version = "0.1.0"
edition = "2021"
publish = false

[dependencies]
anyhow = "1"
chrono = "0.4"
clap = { version = "4", features = ["derive"] }
crossterm = "0.28"
dirs = "*"
dom_smoothie = "*"
nucleo-matcher = "0.3"
ratatui = "0.29"
reqwest = { version = "0.12", default-features = false, features = ["blocking", "rustls-tls"] }
rusqlite = { version = "0.32", features = ["bundled"] }
scraper = "*"
serde = { version = "1", features = ["derive"] }
shellexpand = "3"
slug = "0.1"
toml = "0.8"
url = "2"
