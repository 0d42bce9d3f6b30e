[package]
name = "fut"
version = "0.22.0"
edition = "2021"
publish = false

[dependencies]
anyhow = "=1.0.104"
bytes = "=1.12.1"
crossterm = "=0.29.0"
futures-util = { version = "=0.3.34", features = ["sink"] }
libc = "=0.2.191"
ratatui = "=0.30.2"
serde = { version = "=1.0.229", features = ["derive"] }
thiserror = "=2.0.21"
tokio = { version = "=1.54.1", features = ["rt", "rt-multi-thread", "macros", "net", "sync", "time", "io-util"] }
tokio-util = { version = "=0.7.20", features = ["codec"] }
toml = "=1.1.8"
unicode-segmentation = "=1.13.3"
unicode-width = "=0.2.3"
uuid = { version = "=1.29.0", features = ["v4"] }
