[package]
name = "project_memory"
version = "0.2.0"
edition = "2021"
publish = false

[dependencies]
aes-gcm = "=0.10.3"
anyhow = "=1.0.104"
axum = "0.8"
chrono = "=0.4.45"
clap = { version = "=4.6.7", features = ["derive"] }
clap_complete = "4"
colored = "=2.2.0"
crossterm = "0.28"
hex = "=0.4.3"
pbkdf2 = "=0.12.2"
rand = "=0.8.8"
ratatui = "0.29"
reqwest = { version = "0.12", default-features = false, features = ["blocking", "json", "rustls-tls"] }
rusqlite = { version = "=0.31.0", features = ["bundled"] }
serde = { version = "=1.0.229", features = ["derive"] }
serde_json = "=1.0.154"
serde_yaml = "=0.9.34"
sha2 = "=0.10.9"
strsim = "=0.11.1"
tokio = { version = "1", features = ["rt-multi-thread", "net", "macros"] }
toml = "=0.8.23"
tower-http = { version = "0.6", features = ["cors"] }
uuid = { version = "=1.29.0", features = ["v4"] }
walkdir = "=2.5.0"
