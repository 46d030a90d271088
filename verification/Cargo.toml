[package]
name = "rv6_kernel"
version = "0.1.0"
edition = "2021"
publish = false

[dependencies]
cortex-a = "=8.1.1"
tock-registers = "=0.8.1"
zerocopy = { version = "=0.7.35", features = ["derive"] }
