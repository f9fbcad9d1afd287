[package]
name = "uss_core"
version = "0.1.0"
edition = "2021"
publish = false

[dependencies]
ropey = "1"
tower-lsp = "0.20"
tokio = { version = "1", features = ["rt-multi-thread", "io-std", "macros"] }
dashmap = "5"
log = "0.4"
env_logger = "0.11"
