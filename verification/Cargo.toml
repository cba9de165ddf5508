[package]
name = "with_dir"
version = "0.1.0"
edition = "2021"
publish = false

[dependencies]
parking_lot = "*"
tempfile = "*"
