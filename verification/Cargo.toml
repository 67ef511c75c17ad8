[package]
name = "limo"
version = "0.1.0"
edition = "2021"
publish = false

[dependencies]
anyhow = "1"
clap = { version = "4", features = ["derive", "env"] }
colored = "2"
crossterm = { version = "*", features = ["event-stream"] }
dotenvy = "0.15"
futures = "0.3"
lighthouse-client = { version = "*", features = ["tokio"] }
multipeek = "0.1"
once_cell = "1"
ratatui = "*"
regex = "1"
rustyline = "*"
serde_json = "1"
tokio = { version = "1", features = ["rt", "rt-multi-thread", "macros", "fs"] }
url = "2"
uuid = { version = "1", features = ["v4"] }
