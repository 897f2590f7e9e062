[package]
name = "scrub"
version = "0.1.0"
edition = "2021"
publish = false

[dependencies]
bytesize = "=2.7.0"
clap = { version = "=4.6.7", features = ["derive"] }
ioprio = "=0.2.0"
libc = "=0.2.190"
nix = { version = "=0.31.3", features = ["ioctl"] }
