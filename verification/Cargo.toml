[package]
name = "seal_the_sub"
version = "0.1.0"
edition = "2021"
publish = false

[dependencies]
rand = "*"
