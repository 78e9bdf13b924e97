[package]
name = "ink_types_node_runtime"
version = "0.1.0"
edition = "2021"
publish = false

[dependencies]
parity-scale-codec = "=1.3.7"
ink_core = "*"
