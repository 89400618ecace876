[package]
name = "pattern_swap"
version = "0.1.0"
edition = "2021"

[dependencies]
itertools = "*"
ordinal = "*"
rand = "0.8"
