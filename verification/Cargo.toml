[package]
name = "amy_backend"
version = "0.1.0"
edition = "2021"
publish = false

[dependencies]
cranelift = "0.81"
cranelift-module = "0.81"
cranelift-object = "0.81"
target-lexicon = "0.12"
