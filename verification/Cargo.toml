[package]
name = "welle"
version = "0.1.0"
edition = "2021"
publish = false

[dependencies]
futures = "0.1"
http = "0.1"
reqwest = "0.9"
structopt = "0.2"
tokio = "0.1"
