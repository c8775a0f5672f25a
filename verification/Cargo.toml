[package]
name = "ratelimit_filter"
version = "0.1.0"
edition = "2021"
publish = false

[dependencies]
bincode = "1"
limitador = { version = "0.1", default-features = false }
log = "0.4"
proxy-wasm = "0.1"
