[package]
name = "mime_multipart"
version = "0.1.0"
edition = "2021"
publish = false

[dependencies]
httparse = "1"
hyper = "0.10"
