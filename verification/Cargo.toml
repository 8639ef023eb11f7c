[package]
name = "pkmt"
version = "0.1.0"
edition = "2021"
publish = false

[dependencies]
regex = "1"
pathdiff = "0.2"
anyhow = "1"
clap = { version = "4", features = ["derive"] }
tracing = "0.1"
tracing-subscriber = { version = "0.3", features = ["env-filter"] }
directories = "6"
serde = { version = "1", features = ["derive"] }
toml = "0.8"
serde_json = "1"
json = "0.12"
reqwest = { version = "0.12", default-features = false, features = ["rustls-tls"] }
tokio = { version = "1", features = ["rt-multi-thread"] }
scraper = "0.29"
ratatui = "0.30"
chrono = "0.4"
edit-distance = "2"
indicatif = "0.17"
zeroize = { version = "1", features = ["derive"] }
