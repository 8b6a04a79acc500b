[package]
name = "circ_blocks"
version = "0.1.0"
edition = "2021"
publish = false

[dependencies]
rug = { version = "1", default-features = false, features = ["integer"] }
