[package]
name = "rsrun"
version = "0.1.0"
edition = "2021"
publish = false

[dependencies]
clap = { version = "4", features = ["derive"] }
libc = "0.2"
nix = { version = "0.29", features = ["dir", "fs", "mount", "process", "sched", "signal", "user", "hostname"] }
serde_json = "1"
