[package]
name = "jsonrpc_greeting"
version = "0.1.0"
edition = "2021"
publish = false

[dependencies]
actix-web = "4"
env_logger = "0.11"
log = "0.4"
