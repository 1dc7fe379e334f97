[package]
name = "gongd"
version = "0.1.0"
edition = "2021"
publish = false

[dependencies]
bstr = { version = "=1.13.1", default-features = false, features = ["std"] }
clap = { version = "=4.6.7", features = ["derive"] }
ignore = "=0.4.34"
notify = "=6.1.1"
serde = { version = "=1.0.229", features = ["derive"] }
serde_json = "=1.0.154"
tokio = { version = "=1.54.1", features = ["io-util", "macros", "net", "rt-multi-thread", "sync", "time"] }
