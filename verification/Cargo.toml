[package]
name = "trmrs_core"
version = "0.1.0"
edition = "2021"
publish = false

[dependencies]
minipng = "=1.0.0"
png = "0.17"
rand = "=0.8.8"
embedded-graphics = "=0.8.2"
