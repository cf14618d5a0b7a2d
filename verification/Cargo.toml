[package]
name = "ccase"
version = "0.1.0"
edition = "2021"
publish = false

[dependencies]
rand = "*"
clap = "4"
atty = "0.2"

[dev-dependencies]
convert_case = "=0.6.0"
