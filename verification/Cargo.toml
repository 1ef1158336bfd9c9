[package]
name = "jawk"
version = "0.1.0"
edition = "2021"
publish = false

[dependencies]
hashbrown = "*"
lru-cache = "0.1"
libc = "0.2"
lexical-core = "0.8"
