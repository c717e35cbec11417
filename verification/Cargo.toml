[package]
name = "scanlog"
version = "0.1.0"
edition = "2021"
publish = false

[dependencies]
chrono = "*"
chrono-tz = "*"
walkdir = "*"
tokio = { version = "*", features = ["rt-multi-thread", "sync", "fs", "io-util", "macros", "time"] }
tokio-util = { version = "*", features = ["compat"] }
csv-async = "*"
csv = "*"
argparse = "*"
env_logger = "*"
log = "*"
