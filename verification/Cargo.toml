[package]
name = "fulmen"
version = "0.1.0"
edition = "2021"
publish = false

[dependencies]
flate2 = "1"
md-5 = "0.10"
serde_json = "1"
