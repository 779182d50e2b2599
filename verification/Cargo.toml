[package]
name = "dview"
version = "0.1.0"
edition = "2021"
publish = false

[dependencies]
anyhow = "=1.0.104"
arrow = { version = "=60.1.0", default-features = false }
calamine = "=0.38.0"
chardetng = "=0.1.17"
clap = { version = "=4.6.7", features = ["derive"] }
crossterm = "=0.29.0"
csv = "=1.4.0"
encoding_rs = "=0.8.44"
parquet = "=60.1.0"
ratatui = "=0.30.2"
unicode-width = "=0.2.3"
