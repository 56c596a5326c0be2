[package]
name = "systrace"
version = "0.1.0"
edition = "2021"
publish = false

[dependencies]
clap = "2"
fern = "0.5"
libc = "0.2"
log = "0.4"
nix = "0.15"
