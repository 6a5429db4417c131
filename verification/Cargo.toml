[package]
name = "grok_hooks"
version = "0.1.0"
edition = "2021"
publish = false

[dependencies]
serde_json = "1"
dirs = "6"
thiserror = "2"
