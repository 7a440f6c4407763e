[package]
name = "wmc"
version = "0.1.0"
edition = "2021"
publish = false

[dependencies]
anyhow = "1"
getopts = "0.2"
thiserror = "1"
