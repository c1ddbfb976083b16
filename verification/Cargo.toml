[package]
name = "amm"
version = "0.1.0"
edition = "2021"
publish = false

[dependencies]
odra = "0.4.0"
