[package]
name = "reticulum"
version = "0.1.0"
edition = "2021"
publish = false

[dependencies]
bzip2 = "=0.6.1"
ed25519-dalek = "=2.2.0"
hkdf = "=0.12.4"
log = "=0.4.35"
rand_core = { version = "=0.6.4", features = ["getrandom"] }
rmp = "=0.8.15"
rmpv = "=1.3.1"
sha2 = "=0.10.9"
socket2 = { version = "=0.6.5", features = ["all"] }
tokio = { version = "=1.54.1", features = ["full"] }
tokio-serial = { version = "=5.5.0", default-features = false }
tokio-util = "=0.7.20"
x25519-dalek = { version = "2", features = ["static_secrets"] }
