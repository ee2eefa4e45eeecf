[package]
name = "forbidden_island"
version = "0.1.0"
edition = "2021"
publish = false

[dependencies]
clap = { version = "4", features = ["derive"] }
itertools = "0.12"
rand = "0.8"
rand_chacha = "0.3"
thousands = "0.2"
