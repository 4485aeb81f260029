[package]
name = "circuit_builder"
version = "0.1.0"
edition = "2021"
publish = false

[dependencies]
plonky2_field = "*"
plonky2_util = "*"
log = "*"
