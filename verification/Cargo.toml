[package]
name = "chess_wire"
version = "0.1.0"
edition = "2021"
publish = false

[dependencies]
serde = "*"
serde_derive = "*"
rmp-serde = "*"
