[package]
name = "rekaserdoba_server"
version = "0.1.0"
edition = "2021"
publish = false

[dependencies]
anyhow = "=1.0.104"
axum = { version = "=0.8.9", features = ["ws"] }
base64 = "=0.22.1"
bytes = "=1.12.1"
caps = "=0.5.6"
chacha20poly1305 = "=0.11.0"
ed25519-dalek = "=2.2.0"
h3 = "=0.0.8"
h3-quinn = { version = "=0.0.10", features = ["datagram"] }
h3-webtransport = "=0.1.2"
hkdf = "=0.13.0"
hmac = "=0.13.0"
http = "=1.5.0"
quinn = "=0.11.12"
rand_core = { version = "=0.6.4", features = ["getrandom"] }
rustls = "=0.23.46"
rustls-native-certs = "=0.8.5"
serde = { version = "=1.0.229", features = ["derive"] }
serde_json = "=1.0.154"
sha2 = "=0.11.1"
subtle = "=2.6.1"
tokio = { version = "=1.54.1", features = ["full"] }
tokio-stream = "=0.1.19"
tracing = "=0.1.44"
tracing-subscriber = { version = "=0.3.23", features = ["env-filter", "json"] }
tun-rs = { version = "=2.8.16", features = ["async"] }
wtransport = "=0.7.2"
x25519-dalek = { version = "=2.0.1", features = ["static_secrets"] }
zeroize = "=1.9.1"
