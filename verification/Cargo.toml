[package]
name = "word_smt"
version = "0.1.0"
edition = "2021"
publish = false

[dependencies]
blake2b-ref = "*"
sparse-merkle-tree = { version = "*", default-features = false }
risc0-zkvm-guest = "*"
