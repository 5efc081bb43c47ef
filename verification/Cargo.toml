[package]
name = "warp_ssh"
version = "0.1.0"
edition = "2021"
publish = false

[dependencies]
anyhow = "1"
async-io = "2"
async-process = "2"
futures-lite = "2"
log = "0.4"
tempfile = "3"
typed-path = "*"
