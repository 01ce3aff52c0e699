[package]
name = "udever"
version = "0.1.0"
edition = "2021"
publish = false

[dependencies]
anyhow = "*"
clap = { version = "*", features = ["derive"] }
clap_complete = "*"
dialoguer = { version = "*", features = ["fuzzy-select"] }
nix = { version = "*", features = ["user"] }
os-release = "*"
