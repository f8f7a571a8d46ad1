[package]
name = "liberty_parse"
version = "0.1.0"
edition = "2021"
publish = false

[dependencies]
indexmap = "1.3"
itertools = "0.8"
nom = "5.1"
