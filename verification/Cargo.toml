[package]
name = "ref_count"
version = "0.1.2"
edition = "2021"
publish = false

[dev-dependencies]
loom = { version = "=0.7.2", features = ["futures"] }
