[package]
name = "compare_csv"
version = "0.1.0"
edition = "2021"
publish = false

[dependencies]
chrono = "*"
csv = "*"
rust_decimal = "*"
structopt = "*"
eyre = "*"
color-eyre = "*"
env_logger = "*"
log = "*"
owo-colors = "*"
