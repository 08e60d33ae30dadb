[package]
name = "grin_p2p"
version = "0.1.0"
edition = "2021"
publish = false

[dependencies]
bytes = "*"
