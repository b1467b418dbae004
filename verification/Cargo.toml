[package]
name = "refgraph"
version = "0.1.0"
edition = "2021"
publish = false

[dependencies]
regex = "=1.13.1"
git2 = { version = "0.20", default-features = false }
clap = { version = "=4.6.7", features = ["derive"] }
colog = "=1.4.0"
log = "=0.4.34"
