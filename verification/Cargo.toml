[package]
name = "chess_engine"
version = "0.1.2"
edition = "2021"
publish = false

[dependencies]
rand = "0.8"
