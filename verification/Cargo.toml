[package]
name = "droute"
version = "0.1.0"
edition = "2021"
publish = false

[dependencies]
hashbrown = "*"
futures = "0.3"
tokio = { version = "1", features = ["rt-multi-thread", "net", "fs", "io-util", "signal", "sync", "time", "macros"] }
governor = "*"
anyhow = "1"
log = "0.4"
simple_logger = "*"
structopt = "0.3"
serde = { version = "1", features = ["derive"] }
serde_yaml = "*"
trust-dns-client = "*"
