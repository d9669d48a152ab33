[package]
name = "sigrand"
version = "0.1.0"
edition = "2021"
publish = false

[dependencies]
anyhow = "1"
nix = { version = "0.29", features = ["fs", "process", "signal"] }
rand = "0.8"
