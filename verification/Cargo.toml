[package]
name = "sol2sway"
version = "0.1.0"
edition = "2021"
publish = false

[dependencies]
convert_case = "0.6"
solang-parser = "0.3"
structopt = "0.3"
