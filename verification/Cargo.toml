[package]
name = "libjail"
version = "0.1.0"
edition = "2021"
publish = false

[dependencies]
sysctl = "*"
libc = "*"
lazy_static = "*"
