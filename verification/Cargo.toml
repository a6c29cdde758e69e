[package]
name = "immuxsys"
version = "0.1.0"
edition = "2021"
publish = false

[dependencies]
url = "2"
tiny_http = "0.12"
