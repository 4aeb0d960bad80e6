[package]
name = "valkey-ops"
version = "0.1.0"
edition = "2021"
publish = false

[dependencies]
clap = { version = "4", features = ["derive"] }
wasi = "=0.14.7"
