[package]
name = "ssa_emit"
version = "0.1.0"
edition = "2021"
publish = false

[dependencies]
cranelift = { version = "=0.134.4", features = ["module", "object"] }
