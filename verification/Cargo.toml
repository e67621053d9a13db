[package]
name = "charity_raffle"
version = "0.1.0"
edition = "2021"
publish = false

[dependencies]
ink_env = "=5.1.1"

[dev-dependencies]
sha3 = "=0.10.9"
