[package]
name = "dry-exec-core"
version = "0.1.0"
edition = "2021"
publish = false

[dependencies]
anyhow = "1"
bitflags = "2"
laya = "*"
libc = "0.2"
nix = { version = "0.29", features = ["sched", "mount", "fs"] }
pyo3 = "0.23"
rcgen = "0.13"
rustls = { version = "0.23", default-features = false, features = ["ring", "std", "tls12", "logging"] }
serde_json = "1"
thiserror = "2"
