[package]
name = "abbs_update_checksum_core"
version = "0.1.0"
edition = "2021"
publish = false

[dependencies]
sha2 = "=0.10.9"
faster-hex = "=0.10.1"
reqwest = { version = "=0.12.28", default-features = false, features = ["json", "rustls-tls"] }
tokio = { version = "=1.53.2", features = ["rt-multi-thread", "net", "time"] }
futures = "=0.3.34"
serde = { version = "=1.0.229", features = ["derive"] }
clap = { version = "=4.5.61", features = ["derive"] }
dashmap = "=6.2.1"
eyre = "=0.6.14"
indicatif = "=0.18.6"
log = "=0.4.34"
simplelog = "=0.12.2"
walkdir = "=2.5.0"
