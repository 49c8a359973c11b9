[package]
name = "eltako_bus"
version = "0.1.0"
edition = "2021"
publish = false

[dependencies]
env_logger = "0.10"
log = "0.4"
nix = { version = "0.26", default-features = false, features = ["fs", "term"] }
