[package]
name = "nbody_lockstep"
version = "0.1.0"
edition = "2021"
publish = false

[dependencies]
fixed = "1"
fixed-sqrt = "0.2"
twox-hash = "1"

[dev-dependencies]
rand = "0.8"
