[package]
name = "veneer"
version = "0.1.0"
edition = "2021"
publish = false

[dependencies]
desert = "*"
derivative = "2"
iocuddle = "*"
num-derive = "0.4"
num-traits = "0.2"
