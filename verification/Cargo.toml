[package]
name = "hart_link"
version = "0.1.0"
edition = "2021"
publish = false

[dependencies]
base64 = "=0.22.1"
clap = { version = "=4.6.7", features = ["derive"] }
serde = { version = "=1.0.229", features = ["derive"] }
serde_json = "=1.0.154"
socket2 = { version = "=0.6.5", features = ["all"] }
thiserror = "=2.0.21"
tokio = { version = "=1.54.1", features = ["io-util", "macros", "net", "rt-multi-thread", "sync", "time"] }
tokio-serial = { version = "=5.5.0", default-features = false }
zeroize = "=1.9.1"
zip = { version = "=8.6.0", default-features = false, features = ["deflate"] }
