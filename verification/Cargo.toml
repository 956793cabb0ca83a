[package]
name = "unitd"
version = "0.1.0"
edition = "2021"
publish = false

[dependencies]
nix = "0.23"
threadpool = "1"
