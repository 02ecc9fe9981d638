[package]
name = "concurrent_scraper"
version = "0.1.0"
edition = "2021"
publish = false

[dependencies]
anyhow = "1"
futures = "0.3"
indicatif = "0.17"
parking_lot = "0.12"
rayon = "1"
reqwest = "0.12"
scraper = "*"
thiserror = "1"
tokio = { version = "1", features = ["full"] }
tracing-subscriber = "0.3"
