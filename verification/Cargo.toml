[package]
name = "xfer"
version = "0.1.0"
edition = "2021"
publish = false

[dependencies]
aes = "0.8"
axum = { version = "0.8", features = ["ws"] }
base64 = "0.22"
bytes = "1"
cbc = "0.1"
futures-util = "0.3"
getrandom = "0.3"
hex = "0.4"
reqwest = { version = "0.12", default-features = false, features = ["stream"] }
serde = { version = "1", features = ["derive"] }
serde_json = "1"
sha2 = "0.10"
thiserror = "2"
tokio = { version = "1", features = ["rt-multi-thread", "sync", "time", "net", "fs", "macros", "io-util", "signal"] }
tokio-util = "0.7"
tracing = "0.1"
url = "2"
