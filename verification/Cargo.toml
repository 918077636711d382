[package]
name = "mmv2000"
version = "1.1.0"
edition = "2021"
publish = false

[dependencies]
clap = { version = "*", features = ["derive"] }
regex = "*"
walkdir = "*"
