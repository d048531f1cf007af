[package]
name = "ibc_gateway"
version = "0.1.0"
edition = "2021"
publish = false

[dependencies]
cosmwasm-std = "*"
itertools = "*"
