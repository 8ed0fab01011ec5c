[package]
name = "qmux"
version = "0.1.0"
edition = "2021"
publish = false

[dependencies]
bytes = "1"
rustc-hash = "2"
socket2 = "0.6"
thiserror = "2"
tokio = { version = "1", features = ["io-util", "macros", "net", "rt", "sync", "time"] }
tracing = "0.1"
