[package]
name = "rc2qt"
version = "0.1.0"
edition = "2021"
publish = false

[dependencies]
clap = "*"
