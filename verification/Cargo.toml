[package]
name = "lan_dns"
version = "0.1.0"
edition = "2021"
publish = false

[dependencies]
hickory-proto = "*"
tokio = { version = "*", features = ["full"] }
anyhow = "*"
clap = { version = "*", features = ["derive"] }
tracing = "*"
tracing-subscriber = "*"
