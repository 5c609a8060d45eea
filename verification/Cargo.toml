[package]
name = "htop_win"
version = "0.1.0"
edition = "2021"
publish = false

[dependencies]
lexopt = "=0.3.2"
