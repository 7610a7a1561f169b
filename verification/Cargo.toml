[package]
name = "enum_gen"
version = "0.1.0"
edition = "2021"
publish = false

[dependencies]
lazy_static = "*"
proc-macro2 = "*"
quote = "*"
syn = "*"
