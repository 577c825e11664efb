[package]
name = "mashnet_runtime"
version = "0.1.0"
edition = "2021"
publish = false

[dependencies]
sp-core = "*"

[dev-dependencies]
parity-scale-codec = "*"
