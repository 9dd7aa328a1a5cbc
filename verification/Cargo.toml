[package]
name = "block_primitives"
version = "0.1.0"
edition = "2021"
publish = false

[dependencies]
blake2 = "0.8"
parity-scale-codec = "1.3"
primitive-types = "0.7"
