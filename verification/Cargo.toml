[package]
name = "rust_weather_ml"
version = "0.1.0"
edition = "2021"
publish = false

[dependencies]
anyhow = "1"
bincode = "1"
chrono = "0.4"
clap = { version = "4", features = ["derive"] }
polars = { version = "0.45", features = ["lazy", "parquet", "strings", "rolling_window", "abs", "log", "trigonometry", "round_series"] }
reqwest = { version = "0.12", default-features = false, features = ["blocking", "json", "rustls-tls"] }
serde = { version = "1", features = ["derive"] }
serde_json = "1"
smartcore = { version = "0.3", features = ["serde"] }
