[package]
name = "jamjam"
version = "0.1.0"
edition = "2021"
publish = false

[dependencies]
aes-gcm = "=0.10.3"
hkdf = "=0.12.4"
sha2 = "=0.10.9"
x25519-dalek = "=2.0.1"
rand = "=0.8.8"
uuid = { version = "=1.29.0", features = ["v4", "serde"] }
serde = { version = "=1.0.229", features = ["derive"] }
serde_json = "=1.0.154"
tokio = { version = "=1.54.1", features = ["full"] }
tokio-tungstenite = "=0.21.0"
futures-util = "=0.3.34"
thiserror = "=1.0.69"
tracing = "=0.1.44"
tracing-subscriber = "=0.3.23"
toml = "=0.8.23"
chrono = { version = "=0.4.45", features = ["serde"] }
anyhow = "=1.0.104"
clap = { version = "=4.6.7", features = ["derive", "env"] }
directories = "=5.0.1"
cpal = "=0.15.3"
ringbuf = "=0.4.8"
crossbeam-channel = "=0.5.17"
libloading = "=0.8.9"
libc = "=0.2.191"
socket2 = "=0.6.5"
