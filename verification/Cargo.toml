[package]
name = "fetcher"
version = "0.1.0"
edition = "2021"
publish = false

[dependencies]
regex = "=1.13.1"
futures = "=0.1.31"
tokio-core = "=0.1.18"
tokio-curl = "=0.1.11"
telebot = "=0.3.1"
