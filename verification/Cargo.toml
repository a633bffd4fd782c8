[package]
name = "ca_server"
version = "0.1.0"
edition = "2021"
publish = false

[dependencies]
base64 = "=0.10.1"
bytes = "=0.4.12"
chrono = "=0.4.45"
rpki = "=0.9.2"
