[package]
name = "fastmd5"
version = "0.1.0"
edition = "2021"
publish = false

[dependencies]
blake3 = "*"
clap = "*"
crossbeam-channel = "*"
hex = "*"
md-5 = "*"
mimalloc = "*"
openssl = "*"
walkdir = "*"
