[package]
name = "iso-7064"
version = "0.1.0"
edition = "2021"
publish = false
