[package]
name = "neptun"
version = "0.1.0"
edition = "2021"
publish = false

[dependencies]
hex = "0.4"
x25519-dalek = { version = "2", features = ["static_secrets"] }
rand_core = { version = "0.6", features = ["getrandom"] }
crossbeam-channel = "0.5"
socket2 = "0.5"
libc = "0.2"
