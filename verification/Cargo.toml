[package]
name = "yaml_merge_keys"
version = "0.1.0"
edition = "2021"
publish = false

[dependencies]
serde_yaml = "0.9"
yaml-rust = "0.4"
