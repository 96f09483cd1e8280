[package]
name = "pscan"
version = "0.1.0"
edition = "2021"
publish = false

[dependencies]
pnet = "*"
rand = "*"
clap = { version = "4", features = ["derive"] }
