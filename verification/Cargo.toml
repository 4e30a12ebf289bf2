[package]
name = "ggst"
version = "0.1.0"
edition = "2021"
publish = false

[dependencies]
hex = "*"
reqwest = { version = "*", default-features = false, features = ["form"] }
serde_json = "*"
