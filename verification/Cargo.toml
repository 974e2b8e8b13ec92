[package]
name = "keygraph"
version = "0.1.0"
edition = "2021"
publish = false

[dependencies]
petgraph = "*"
lazy_static = "*"
