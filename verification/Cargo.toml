[package]
name = "newbbs"
version = "0.1.0"
edition = "2021"
publish = false

[dependencies]
anyhow = "1"
chrono = "0.4"
clap = { version = "4", features = ["derive"] }
crossterm = "*"
postcard = { version = "1", features = ["use-std"] }
rand = "*"
ratatui = "*"
rusqlite = { version = "*", features = ["bundled"] }
russh = { version = "*", default-features = false, features = ["ring", "rsa"] }
serde = { version = "1", features = ["derive"] }
serde_json = "1"
tokio = { version = "1", features = ["full"] }
tracing = "0.1"
tracing-appender = "0.2"
tracing-subscriber = { version = "0.3", features = ["env-filter"] }
unicode-width = "*"
uuid = { version = "1", features = ["v7", "serde"] }
