[package]
name = "sever"
version = "0.1.0"
edition = "2021"
publish = false

[dependencies]
uuid = { version = "1", features = ["v4"] }
tokio = { version = "1", features = ["rt-multi-thread", "macros", "fs", "sync", "io-util"] }
futures = "0.3"
color-eyre = "0.6"
log = "0.4"
pretty_env_logger = "0.5"
recolored = "*"
