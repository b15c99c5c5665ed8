[package]
name = "s3d"
version = "0.1.0"
edition = "2021"
publish = false

[dependencies]
byteorder = "1"
inflate = "0.4"
deflate = "0.7"
clap = "2"
