[package]
name = "libapollo"
version = "0.1.0"
edition = "2021"
publish = false

[dependencies]
anyhow = "1"
bincode = "1.3.3"
bytes = "1"
clap = { version = "2.34.0", features = ["yaml"] }
dashmap = "5.5.3"
fdlimit = "0.3.0"
fnv = "1.0.7"
futures = "0.3"
linked-hash-map = "0.5.6"
log = "0.4"
openssl = "0.10"
rustls = "0.19.1"
serde = { version = "1", features = ["derive"] }
serde_json = "1"
serde_yaml = "0.8.26"
simple_logger = "1.16.0"
tokio = { version = "1", features = ["full"] }
tokio-rustls = "0.22.0"
tokio-stream = "0.1"
tokio-util = { version = "0.7", features = ["time"] }
toml = "0.5.11"
