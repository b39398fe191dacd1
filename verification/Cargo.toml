[package]
name = "gpu_host"
version = "0.1.0"
edition = "2021"
publish = false

[dependencies]
safetensors = "0.4"
tiktoken-rs = "0.6"
cudarc = { version = "0.12", features = ["cuda-12060"] }
