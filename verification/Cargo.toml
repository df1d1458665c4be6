[package]
name = "dfpatch"
version = "0.1.0"
edition = "2021"
publish = false

[dependencies]
ctor = "*"
libc = "0.2"
