[package]
name = "plutocradroid"
version = "0.1.0"
edition = "2021"
publish = false

[dependencies]
atoi = "2"
base64 = "0.13"
rand = "0.8"
