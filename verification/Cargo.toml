[package]
name = "lazylog"
version = "0.1.0"
edition = "2021"
publish = false

[dependencies]
chrono = "=0.4.45"
memchr = "=2.8.3"
anyhow = "=1.0.104"
clap = { version = "=4.6.7", features = ["derive"] }
crossterm = "=0.28.1"
ratatui = "=0.29.0"
flate2 = "=1.1.10"
walkdir = "=2.5.0"
memmap2 = "=0.9.12"
maxminddb = "=0.27.3"
serde_json = "=1.0.154"
log = "=0.4.35"
env_logger = "=0.11.11"
regex = "=1.13.1"
regex-syntax = "=0.8.11"
