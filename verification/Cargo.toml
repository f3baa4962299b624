[package]
name = "slobster"
version = "0.1.0"
edition = "2021"
publish = false

[dependencies]
libc = "0.2"
likely_stable = "0.1"
pin-project-lite = "0.2"
