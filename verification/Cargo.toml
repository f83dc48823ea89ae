[package]
name = "param_sfo"
version = "0.1.0"
edition = "2021"
publish = false

[dependencies]
binrw = "*"
thiserror = "*"
