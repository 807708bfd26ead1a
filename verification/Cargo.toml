[package]
name = "candle_graph"
version = "0.1.0"
edition = "2021"
publish = false

[dependencies]
anyhow = "1"
candle-core = "0.8"
candle-nn = "0.8"
cudarc = { version = "0.13", default-features = false, features = ["std", "driver", "cuda-12040"] }
