[package]
name = "net_filter"
version = "0.1.0"
edition = "2021"
publish = false

[dependencies]
errno = "*"
libc = "*"
