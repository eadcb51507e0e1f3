[package]
name = "cryptowatcher"
version = "0.1.0"
edition = "2021"
publish = false

[dependencies]
chrono = "*"
serde_json = "*"
serde = { version = "*", features = ["derive"] }
reqwest = { version = "*", default-features = false, features = ["json", "rustls-tls"] }
tokio = { version = "*", features = ["rt-multi-thread", "macros", "time"] }
futures = "*"
clap = { version = "*", features = ["derive"] }
crossterm = "*"
ratatui = "*"
anyhow = "*"
