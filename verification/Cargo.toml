[package]
name = "fish_history"
version = "0.1.0"
edition = "2021"
publish = false

[dependencies]
libc = "0.2"
lru = "0.16"
rand = "0.9"
