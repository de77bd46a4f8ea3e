[package]
name = "tiny_httpd"
version = "0.1.0"
edition = "2021"
publish = false

[dependencies]
bytes = "0.3"
mio = "0.5"
slab = "0.1"
