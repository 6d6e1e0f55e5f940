[package]
name = "yaml-peg"
version = "0.1.0"
edition = "2021"
publish = false

[dependencies]
ritelinked = "*"
serde = "1"
