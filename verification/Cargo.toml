[package]
name = "d5_cli"
version = "0.1.0"
edition = "2021"
publish = false

[dependencies]
clap = "=4.6.7"
dirs = "=7.0.0"
reqwest = { version = "=0.12.28", default-features = false, features = ["blocking", "rustls-tls"] }
