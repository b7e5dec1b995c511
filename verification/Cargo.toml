[package]
name = "rainfall"
version = "0.1.0"
edition = "2021"
publish = false

[dependencies]
blake3 = "=1.8.7"
blst = "=0.3.17"
core_affinity = "0.8"
ctrlc = "3"
libc = "=0.2.191"
rand = "0.8"
