[package]
name = "kfuzz_uring"
version = "0.1.0"
edition = "2021"
publish = false

[dependencies]
rand = { version = "0.8", features = ["small_rng"] }
libc = "0.2"
nix = { version = "0.29", features = ["ioctl"] }
