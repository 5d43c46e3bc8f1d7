[package]
name = "schemagen"
version = "0.1.0"
edition = "2021"
publish = false

[dependencies]
anyhow = "*"
borsh = "0.10"
