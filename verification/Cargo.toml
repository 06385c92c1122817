[package]
name = "levm"
version = "0.1.0"
edition = "2021"
publish = false

[dependencies]
bytes = "1"
keccak-hash = "0.11"
