[package]
name = "sumcheck"
version = "0.1.0"
edition = "2021"
publish = false

[dependencies]
p3-field = "=0.8.0"
p3-challenger = "=0.8.0"
p3-keccak = "=0.8.0"
p3-mersenne-31 = "=0.8.0"
rand = "=0.10.3"
