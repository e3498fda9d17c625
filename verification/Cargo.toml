[package]
name = "armory"
version = "0.1.0"
edition = "2021"
publish = false

[dependencies]
toml_edit = "=0.25.16"
semver = "1"
dialoguer = "=0.12.0"
