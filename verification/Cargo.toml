[package]
name = "xbuild"
version = "0.1.0"
edition = "2021"
publish = false

[dependencies]
toml = "=1.1.7"
rustc_version = "=0.4.1"
advisory-lock = "=0.2.0"
fs-err = "=3.3.2"
