[package]
name = "ockam_node"
version = "0.1.0"
edition = "2021"
publish = false

[dependencies]
hashbrown = "*"
ffi-support = "0.4"
