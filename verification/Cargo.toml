[package]
name = "evasm"
version = "0.1.0"
edition = "2021"
publish = false

[dependencies]
clap = "2"
peg = "0.6"
wbuf = "*"
