[package]
name = "backtester_core"
version = "0.1.0"
edition = "2021"
publish = false

[dependencies]
arrow = { version = "*", default-features = false, features = ["ffi", "ipc"] }
likely_stable = "*"
memmap2 = "*"
pyo3 = { version = "*", features = ["abi3-py39", "extension-module"] }
rand = { version = "0.8", features = ["small_rng"] }
rayon = "1"
rustc-hash = "2"
smallvec = "1"
wide = "*"
