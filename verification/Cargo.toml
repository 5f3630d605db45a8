[package]
name = "wirehole"
version = "0.1.0"
edition = "2021"
publish = false

[dependencies]
anyhow = "1"
async-trait = "0.1"
chrono = "0.4"
clap = { version = "4", features = ["derive"] }
env_logger = "0.10"
log = "0.4"
tokio = { version = "1", features = ["full"] }
trust-dns-proto = "0.23"
trust-dns-resolver = "0.23"
trust-dns-server = "0.23"
