[package]
name = "xpdk"
version = "0.1.0"
edition = "2021"
publish = false

[dependencies]
nix = { version = "*", default-features = false, features = ["time", "feature"] }
pcap = "*"
libc = "*"
num_cpus = "*"
log = "*"
