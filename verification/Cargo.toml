[package]
name = "synthrs"
version = "0.1.0"
edition = "2021"
publish = false

[dependencies]
byteorder = "1"
num = "0.4"
rand = "0.8"
