[package]
name = "spice"
version = "0.1.0"
edition = "2021"
publish = false

[dependencies]
actix = "0.13"
borsh = { version = "=1.8.1", features = ["derive"] }
itertools = "=0.14.0"
lru = "=0.12.5"
near-async = "=0.31.1"
near-chain-configs = "=0.31.1"
near-primitives = "=0.31.1"
near-primitives-core = "=0.31.1"
tracing = "=0.1.44"
