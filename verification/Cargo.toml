[package]
name = "nod"
version = "0.1.0"
edition = "2021"

[dependencies]
aes = "0.8"
cbc = "0.1"
sha1 = "0.10"
