[package]
name = "samply_analysis"
version = "0.1.0"
edition = "2021"
publish = false

[dependencies]
flate2 = "1"
rand = "0.9"
nix-base32 = "*"
serde = { version = "1", features = ["derive"] }
serde_json = "1"
url = "2"
clap = { version = "4", features = ["derive"] }
env_logger = "*"
tokio = { version = "1", features = ["rt-multi-thread", "macros", "net", "fs", "signal", "io-util"] }
hyper = { version = "1", features = ["http1", "server"] }
hyper-util = { version = "0.1", features = ["tokio"] }
http-body-util = "0.1"
percent-encoding = "2"
