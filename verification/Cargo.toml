[package]
name = "editorconfig_core"
version = "0.1.0"
edition = "2021"
publish = false

[dependencies]
regex = "1"
regex-syntax = "0.8"
clap = { version = "4", features = ["derive"] }
