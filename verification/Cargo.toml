[package]
name = "crash"
version = "0.1.0"
edition = "2021"
publish = false

[dependencies]
md5 = "*"
clap = { version = "*", features = ["derive"] }
futures = "*"
hex = "*"
log = "*"
pretty_env_logger = "*"
tokio = { version = "*", features = ["rt-multi-thread", "macros", "sync"] }
