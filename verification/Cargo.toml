[package]
name = "nuvi"
version = "0.1.0"
edition = "2021"
publish = false

[dependencies]
async-channel = "*"
async-process = "*"
async-std = "*"
async-trait = "*"
compact_str = "*"
libc = "*"
nvim-rs = { version = "*", features = ["use_async-std"] }
objc = "*"
