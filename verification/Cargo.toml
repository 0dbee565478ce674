[package]
name = "literary_clock"
version = "0.1.0"
edition = "2021"
publish = false

[dependencies]
chrono = "=0.4.45"
clap = { version = "=3.2.25", features = ["derive"] }
colored = "=2.2.0"
rand = "=0.8.8"
regex = "=1.13.1"
reqwest = "=0.11.27"
scraper = "=0.29.0"
serde = { version = "=1.0.229", features = ["derive"] }
serde_yaml = "=0.9.34"
tokio = { version = "=1.54.1", features = ["full"] }
