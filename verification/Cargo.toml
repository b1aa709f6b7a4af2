[package]
name = "packet_plane"
version = "0.1.0"
edition = "2021"
publish = false

[dependencies]
serde_json = "1"
buf_redux = "0.8"
