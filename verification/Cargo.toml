[package]
name = "repackage"
version = "0.1.0"
edition = "2021"
publish = false

[dependencies]
anyhow = "1.0"
cargo_toml = "0.14"
flate2 = "1.0"
tar = "0.4"
toml = "0.5"
