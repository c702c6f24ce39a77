[package]
name = "paintcore"
version = "0.1.0"
edition = "2021"
publish = false

[dependencies]
wml2 = "=0.0.41"
png = "=0.18.1"
instant = "*"
