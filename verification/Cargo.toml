[package]
name = "onedm"
version = "0.1.0"
edition = "2021"
publish = false

[dependencies]
aes = "=0.8.4"
arboard = { version = "=3.7.0", default-features = false }
cbc = { version = "=0.1.2", features = ["alloc"] }
dom_query = "=0.29.0"
ffmpeg-sidecar = "=2.7.0"
hex = "=0.4.3"
librqbit = { version = "=8.1.1", default-features = false, features = ["rust-tls"] }
m3u8-rs = "=6.0.1"
quick-xml = "0.40"
reqwest = { version = "=0.12.28", default-features = false, features = ["rustls-tls"] }
serde = { version = "=1.0.229", features = ["derive"] }
serde_json = "=1.0.154"
thiserror = "=2.0.21"
tokio = { version = "=1.54.1", features = ["rt-multi-thread", "macros", "fs", "io-util", "sync", "time"] }
url = "=2.5.8"
