[package]
name = "minikernel"
version = "0.1.0"
edition = "2021"
publish = false

[dependencies]
bitflags = "*"
multiboot2 = "*"
rlibc = "*"
spin = "*"
volatile = "0.2"
x86_64 = { version = "*", default-features = false, features = ["instructions"] }
