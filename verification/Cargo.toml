[package]
name = "unarchive_queue"
version = "0.1.0"
edition = "2021"
publish = false

[dependencies]
anyhow = "*"
clap = { version = "*", features = ["derive"] }
glob = "*"
log = "*"
simple_logger = "*"
time = { version = "*", features = ["formatting"] }
unrar = "*"
