[package]
name = "cargo_trace"
version = "0.1.0"
edition = "2021"
publish = false

[dependencies]
anyhow = "*"
gimli = "*"
object = "*"
memmap = "*"
addr2line = "*"
libc = "*"
inferno = "*"
