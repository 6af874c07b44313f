[package]
name = "pensketch"
version = "0.1.0"
edition = "2021"

[dependencies]
rand = "0.8"
rand_xoshiro = "0.6"
