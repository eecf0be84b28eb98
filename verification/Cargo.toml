[package]
name = "seguid"
version = "0.1.0"
edition = "2021"

[dependencies]
base64 = "0.13"
sha1 = "0.10"
