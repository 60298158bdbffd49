[package]
name = "epox"
version = "0.2.2"
edition = "2021"
publish = false

[dependencies]
nix = { version = "0.30", features = ["event", "fs", "signal", "time", "term", "process", "poll"] }
futures-util = "0.3"
futures-io = "0.3"
pin-project-lite = "0.2"
