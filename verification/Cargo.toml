[package]
name = "command_ext"
version = "0.1.0"
edition = "2021"
publish = false

[dependencies]
shellwords = "=1.1.0"
camino = "=1.2.6"
sealed = "=0.7.0"
