[package]
name = "qudag_network"
version = "0.1.0"
edition = "2021"
publish = false

[dependencies]
blake3 = "=1.8.7"
bs58 = "=0.5.1"
zstd = "=0.13.4"
rand = "=0.8.8"
chacha20poly1305 = "=0.10.1"
lru = "=0.12.5"
ring = "=0.17.14"
sha2 = "=0.10.9"
serde = { version = "=1.0.229", features = ["derive"] }
bincode = "=1.3.3"
thiserror = "=1.0.69"
zeroize = "=1.9.1"
uuid = { version = "=1.29.1", features = ["v4"] }
bytes = "=1.12.1"
tokio = { version = "=1.54.1", features = ["full"] }
reqwest = { version = "0.12", default-features = false, features = ["json", "rustls-tls"] }
