[package]
name = "dvtr"
version = "0.1.0"
edition = "2021"
publish = false

[dependencies]
regex = "*"
crossterm = "*"
portable-pty = "*"
anyhow = "*"
log = "*"
env_logger = "*"
