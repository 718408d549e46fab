[package]
name = "batch_item"
version = "0.1.0"
edition = "2021"
publish = false

[dependencies]
lsm-tree = "*"
