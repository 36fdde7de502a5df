[package]
name = "snapdiff"
version = "0.1.0"
edition = "2021"
publish = false

[dependencies]
anyhow = "*"
blake3 = "*"
bytes = "*"
chrono = "*"
md5 = "*"
rand = "*"
sha3 = "*"
walkdir = "*"
