[package]
name = "dhcp"
version = "0.1.0"
edition = "2021"
publish = false

[dependencies]
eui48 = "*"
tokio-process = "0.2"
