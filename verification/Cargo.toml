[package]
name = "pipeline"
version = "0.1.0"
edition = "2021"
publish = false

[dependencies]
regex = "1"
rand = "0.8"
encoding_rs = "0.8"
dirs = "5"
scanner-rust = "2"
clap = { version = "4", features = ["derive"] }
