[package]
name = "gpp"
version = "0.6.2"
edition = "2021"
publish = false

[dependencies]
clap = "2"
