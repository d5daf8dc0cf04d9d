[package]
name = "hpla_rs"
version = "0.1.0"
edition = "2021"
publish = false

[dependencies]
anyhow = "1"
clap = { version = "4", features = ["derive"] }
csv = "1"
faer = "0.24"
indicatif = "0.18"
matrix-market-rs = "*"
rand = "0.9"
thiserror = "2"
