[package]
name = "kessel"
version = "0.1.0"
edition = "2021"
publish = false

[dependencies]
printpdf = "0.7"
rusttype = "0.8"
