[package]
name = "shogi_legality_lite"
version = "0.1.0"
edition = "2021"
publish = false

[dependencies]
shogi_core = "0.1"

[dev-dependencies]
shogi_usi_parser = "0.1"
