[package]
name = "tweep"
version = "0.2.0"
edition = "2021"
publish = false

[dependencies]
serde_json = "1"
bimap = "0.6"
