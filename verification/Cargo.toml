[package]
name = "rstask_core"
version = "0.1.0"
edition = "2021"
publish = false

[dependencies]
dirs = "*"
serde_styx = "*"
