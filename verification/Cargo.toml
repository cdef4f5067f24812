[package]
name = "llmtmplog"
version = "0.1.0"
edition = "2021"
publish = false

[dependencies]
dirs = "6"
libc = "0.2"
