[package]
name = "stake"
version = "1.0.0"
edition = "2021"
publish = false

[dependencies]
parity-scale-codec = { version = "3", features = ["derive"] }
sp-runtime = { version = "*", default-features = false }
frame-support = { version = "*", default-features = false }
frame-system = { version = "*", default-features = false }
