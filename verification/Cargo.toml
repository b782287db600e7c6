[package]
name = "elf2tab"
version = "0.1.0"
edition = "2021"
publish = false

[dependencies]
elf = "=0.7.4"
ring = "=0.16.20"
sha2 = "=0.10.9"
