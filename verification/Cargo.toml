[package]
name = "lc3asm"
version = "0.1.0"
edition = "2021"
publish = false

[dependencies]
byteorder = "1"
clap = { version = "4", features = ["derive"] }
num-traits = "0.2"
