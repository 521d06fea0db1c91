[package]
name = "lact_daemon"
version = "0.1.0"
edition = "2021"
publish = false

[dependencies]
anyhow = "=1.0.104"
bincode = "=1.3.3"
log = "=0.4.34"
pciid-parser = { version = "=0.8.1", features = ["serde"] }
rand = "=0.8.8"
reqwest = { version = "=0.11.27", default-features = false, features = ["blocking", "json", "rustls-tls"] }
serde = { version = "=1.0.229", features = ["derive"] }
serde_json = "=1.0.154"
