[package]
name = "byteos_core"
version = "0.1.0"
edition = "2021"
publish = false

[dependencies]
bit_field = "=0.10.3"
xmas-elf = "=0.9.1"
syscalls = { version = "=0.6.18", default-features = false }
polyhal = "=0.4.0"
num-traits = { version = "=0.2.19", default-features = false }
hashbrown = "=0.17.1"
