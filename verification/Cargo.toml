[package]
name = "hostparser"
version = "0.1.0"
edition = "2021"
publish = false

[dependencies]
tldextract = "*"
async-std = "*"
clap = "*"
futures = "*"
spmc = "*"
tokio = { version = "*", features = ["rt-multi-thread", "time"] }
governor = "*"
