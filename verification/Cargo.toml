[package]
name = "arkwrap"
version = "0.1.0"
edition = "2021"
publish = false

[dependencies]
ark-bls12-381 = "=0.5.0"
ark-ec = "=0.5.0"
ark-ff = "=0.5.0"
ark-serialize = "=0.5.0"
ark-std = "=0.5.0"
rand_core = { version = "=0.6.4", features = ["getrandom"] }
subtle = "=2.6.1"
ff = "=0.13.1"
elliptic-curve = "=0.13.8"
