[package]
name = "matrix_warp"
version = "0.1.0"
edition = "2021"
publish = false

[dependencies]
ndarray = "*"
faer = "*"
faer-ext = { version = "*", features = ["ndarray"] }
image = "*"
clap = { version = "*", features = ["derive"] }
color-eyre = "*"
indicatif = "*"
