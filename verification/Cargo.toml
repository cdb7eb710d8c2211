[package]
name = "unpalm"
version = "0.1.0"
edition = "2021"
publish = false

[dependencies]
clap = { version = "4", features = ["derive"] }
evdev = "0.13"
nix = { version = "0.29", features = ["poll"] }
signal-hook = "0.3"
