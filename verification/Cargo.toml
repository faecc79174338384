[package]
name = "constraint_builder"
version = "0.1.0"
edition = "2021"
publish = false

[dependencies]
derive-hex = "=0.1.2"
dusk-bls12_381 = { version = "=0.11.3", default-features = false }
dusk-bytes = "=0.1.7"
rand_core = { version = "=0.6.4", default-features = false, features = ["getrandom"] }
