[package]
name = "aptos_fuzzer"
version = "0.1.0"
edition = "2021"
publish = false

[dependencies]
bcs = "*"
libafl_bolts = "*"
