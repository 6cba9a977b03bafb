[package]
name = "kiseki"
version = "0.1.0"
edition = "2021"
publish = false

[dependencies]
fixedbitset = "0.5"
