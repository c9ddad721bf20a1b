[package]
name = "censorless_protocol"
version = "0.1.0"
edition = "2021"
publish = false

[dependencies]
chacha20poly1305 = "=0.10.1"
ed25519-dalek = "=2.2.0"
curve25519-dalek = "=4.1.3"
rand = "=0.9.5"
zstd = "=0.13.4"
hex = "=0.4.3"
serde = { version = "=1.0.229", features = ["derive"] }
serde_json = "=1.0.154"
toml = "=0.8.23"
clap = { version = "=4.6.7", features = ["derive"] }
tokio = { version = "=1.54.1", features = ["full"] }
tracing = "=0.1.44"
tracing-subscriber = "=0.3.23"
thiserror = "=2.0.21"
reqwest = { version = "=0.12.28", default-features = false, features = ["rustls-tls"] }
socks5-server = "=0.10.1"
lambda_http = "=0.14.0"
