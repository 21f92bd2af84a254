[package]
name = "tagfs"
version = "0.1.0"
edition = "2021"
publish = false

[dependencies]
time = "*"
libc = "*"
fuse_mt = "*"
clap = { version = "*", features = ["derive"] }
anyhow = "*"
walkdir = "*"
magic = "*"
tracing = "*"
tracing-subscriber = "*"
