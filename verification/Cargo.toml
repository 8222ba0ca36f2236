[package]
name = "stylish"
version = "0.1.0"
edition = "2021"
publish = false

[dependencies]
askama_escape = "0.10"
unicode-ident = "1"
