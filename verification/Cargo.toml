[package]
name = "xsh"
version = "0.1.0"
edition = "2021"
publish = false

[dependencies]
dirs = "*"
nix = { version = "*", features = ["process", "signal", "fs"] }
rustyline = "*"
