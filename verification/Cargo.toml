[package]
name = "spooky_edge"
version = "0.1.0"
edition = "2021"
publish = false

[dependencies]
http = "*"
rand = "0.8"
quiche = "*"
bytes = "*"
http-body-util = "*"
hyper = { version = "*", features = ["client", "http2"] }
hyper-util = { version = "*", features = ["client-legacy", "http2", "tokio"] }
tokio = { version = "*", features = ["rt-multi-thread", "net", "time", "sync", "macros"] }
serde = { version = "*", features = ["derive"] }
serde_yaml = "*"
clap = { version = "*", features = ["derive"] }
log = "*"
env_logger = "*"
