[package]
name = "pest_ascii_tree"
version = "0.1.0"
edition = "2021"
publish = false

[dependencies]
ascii_tree = "=0.1.1"
escape_string = "=0.1.2"
pest = "=2.9.4"
