[package]
name = "thot"
version = "0.1.0"
edition = "2021"
publish = false

[dependencies]
clap = "2"
serde = "1"
serde_derive = "1"
serde_json = "1"
