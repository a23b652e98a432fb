[package]
name = "tsukuyomi"
version = "0.1.0"
edition = "2021"
publish = false

[dependencies]
indexmap = "1"
http = "1"
mime = "0.3"
serde = "1"
serde_json = "1"
serde_plain = "1"
serde_urlencoded = "0.7"
