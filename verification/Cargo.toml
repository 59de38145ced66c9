[package]
name = "countme"
version = "0.1.0"
edition = "2021"
publish = false

[dependencies]
dashmap = "5"
once_cell = "1"
rustc-hash = "1"
