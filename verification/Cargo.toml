[package]
name = "object_ingest"
version = "0.1.0"
edition = "2021"
publish = false

[dependencies]
base64 = "*"
blake2 = "*"
hex = "*"
md-5 = "*"
sha2 = "*"
