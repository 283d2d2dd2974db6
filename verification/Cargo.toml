[package]
name = "collator_staking"
version = "0.1.0"
edition = "2021"
publish = false

[dependencies]
sp-arithmetic = { version = "*", default-features = false, features = ["std"] }
parity-scale-codec = { version = "*", default-features = false, features = ["std"] }
