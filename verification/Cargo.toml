[package]
name = "translator"
version = "0.1.0"
edition = "2021"
publish = false

[dependencies]
percent-encoding = "2"
serde_json = "1"
ureq = "3"
