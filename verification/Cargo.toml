[package]
name = "sajit"
version = "0.1.0"
edition = "2021"
publish = false

[dependencies]
object = "0.37"
libc = "0.2"
clear-cache = "*"
