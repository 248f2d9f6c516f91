[package]
name = "cache-manager"
version = "0.1.0"
edition = "2021"
publish = false

[dependencies]
directories = "6"
tempfile = "3"
