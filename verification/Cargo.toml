[package]
name = "riscverifier"
version = "0.1.0"
edition = "2021"
publish = false

[dependencies]
topological-sort = "*"
clap = "2"
log = "0.4"
env_logger = "*"
