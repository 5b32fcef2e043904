[package]
name = "recompose"
version = "0.1.0"
edition = "2021"
publish = false

[dependencies]
slotmap = "=1.1.1"
tokio = { version = "=1.53.2", features = ["rt-multi-thread", "sync", "time"] }
