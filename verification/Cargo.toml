[package]
name = "zkledger"
version = "0.1.0"
edition = "2021"
publish = false

[dependencies]
anyhow = "1"
indexmap = "1.9"
rayon = "1"
time = "0.3"
