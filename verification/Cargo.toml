[package]
name = "yabumi"
version = "0.1.0"
edition = "2021"
publish = false

[dependencies]
indexmap = "2"
regex = "1"
ureq = { version = "3", default-features = false }
