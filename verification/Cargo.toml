[package]
name = "jsonnet_deps"
version = "0.1.0"
edition = "2021"
publish = false

[dependencies]
jrsonnet-parser = "*"
