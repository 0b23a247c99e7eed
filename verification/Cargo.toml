[package]
name = "gateway_codec"
version = "0.1.0"
edition = "2021"
publish = false

[dependencies]
serde = { version = "=1.0.229", features = ["derive"] }
serde_json = "=1.0.151"
simd-json = "=0.18.1"
twilight-model = "=0.2.9"
tracing = "=0.1.44"
