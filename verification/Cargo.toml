[package]
name = "zoea_lm"
version = "0.1.0"
edition = "2021"
publish = false

[dependencies]
burn = { version = "=0.18.0", default-features = false, features = ["std", "dataset"] }
candle-core = "=0.8.4"
candle-nn = "=0.8.4"
tiktoken-rs = "=0.12.1"
