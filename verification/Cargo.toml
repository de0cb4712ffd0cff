[package]
name = "common"
version = "0.1.0"
edition = "2021"
publish = false

[dependencies]
libc = "*"
crossbeam = "*"
log = "*"
env_logger = "*"
