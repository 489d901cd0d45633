[package]
name = "column_stats"
version = "0.1.0"
edition = "2021"
publish = false

[dependencies]
anyhow = "1"
clap = { version = "4", features = ["derive"] }
polars = { version = "*", default-features = false, features = ["lazy", "csv", "reinterpret"] }
