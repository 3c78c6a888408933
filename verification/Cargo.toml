[package]
name = "poise"
version = "0.1.0"
edition = "2021"
publish = false

[dependencies]
rand = "0.10"
arc-swap = "1"
futures-core = "0.3"
tokio = { version = "1", features = ["rt", "time", "macros", "sync"] }
