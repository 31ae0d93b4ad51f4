[package]
name = "beamium"
version = "0.1.0"
edition = "2021"
publish = false

[dependencies]
regex = "1"
time = "0.1"
clap = "2"
nix = { version = "0.29", features = ["signal"] }
yaml-rust = "0.4"
