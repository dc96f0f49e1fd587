[package]
name = "toda"
version = "0.1.0"
edition = "2021"
publish = false

[dependencies]
itertools = "*"
anyhow = "*"
libc = "*"
nix = { version = "*", features = ["mount", "ptrace", "signal", "process", "fs", "poll"] }
procfs = "*"
structopt = "*"
