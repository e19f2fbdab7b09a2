[package]
name = "rvisor"
version = "0.1.0"
edition = "2021"
publish = false

[dependencies]
byteorder = "1"
libc = "0.2"
nix = { version = "0.26", features = ["ptrace", "process", "signal"] }
clap = "2"
log = "0.4"
env_logger = "0.8"
