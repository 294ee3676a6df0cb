[package]
name = "coat_check"
version = "0.1.0"
edition = "2021"
publish = false

[dependencies]
md-5 = "*"
nix = { version = "*", features = ["fs", "signal"] }
