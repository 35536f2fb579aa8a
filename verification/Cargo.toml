[package]
name = "rmr"
version = "0.1.0"
edition = "2021"
publish = false

[dependencies]
bytes = "=1.12.1"
clap = { version = "=4.6.7", features = ["derive"] }
crossbeam-queue = "=0.3.14"
serde = { version = "=1.0.229", features = ["derive"] }
socket2 = { version = "=0.5.10", features = ["all"] }
thiserror = "=2.0.21"
tokio = { version = "=1.54.1", features = ["io-std", "io-util", "macros", "net", "rt-multi-thread", "signal", "sync", "time"] }
tokio-serial = "=5.5.0"
tokio-util = "=0.7.20"
toml = { version = "=0.8.23", features = ["preserve_order"] }
tracing = "=0.1.44"
tracing-subscriber = { version = "=0.3.23", features = ["env-filter", "json"] }
