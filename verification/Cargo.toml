[package]
name = "hauberk"
version = "0.1.0"
edition = "2021"
publish = false

[dependencies]

[dev-dependencies]
rand_pcg = "*"
rand_core = "*"
