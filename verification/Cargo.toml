[package]
name = "doc2skill"
version = "0.1.0"
edition = "2021"
publish = false

[dependencies]
clap = { version = "=4.6.7", features = ["derive"] }
color-eyre = "=0.6.5"
htmd = "=0.1.6"
indicatif = "=0.17.11"
inquire = "=0.7.5"
reqwest = { version = "=0.12.28", default-features = false, features = ["json", "blocking", "rustls-tls"] }
scraper = { version = "=0.20.0", features = ["deterministic"] }
serde_json = "=1.0.154"
tiktoken-rs = "=0.6.0"
tokio = { version = "=1.54.1", features = ["rt-multi-thread", "macros"] }
toml = "=0.8.23"
