[package]
name = "markdang"
version = "0.2.0"
edition = "2021"
publish = false

[dependencies]
clap = "=4.6.7"
regex = "=1.13.1"
rtag = "=0.3.5"
serde = "=0.9.15"
serde_derive = "0.9"
serde_json = "=0.9.10"
