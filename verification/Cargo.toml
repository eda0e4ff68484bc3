[package]
name = "rust_ast_gen"
version = "0.1.0"
edition = "2021"
publish = false

[dependencies]
ungrammar = "=1.16.1"
heck = "=0.5.0"
ra_ap_syntax = "=0.0.300"
serde = { version = "=1.0.229", features = ["derive"] }
serde_json = "=1.0.154"
clap = { version = "=4.6.7", features = ["derive"] }
anyhow = "=1.0.104"
log = "=0.4.35"
env_logger = "=0.11.11"
