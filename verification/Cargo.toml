[package]
name = "cargo_deps"
version = "0.1.0"
edition = "2021"
publish = false

[dependencies]
cargo_metadata = "0.19"
color-eyre = "0.6"
crossterm = "0.28"
ratatui = "0.29"
semver = "1"
