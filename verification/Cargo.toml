[package]
name = "solnix"
version = "0.1.0"
edition = "2021"
publish = false

[dependencies]
miette = "7"
thiserror = "2"
