[package]
name = "incognita_socket_server"
version = "0.1.0"
edition = "2021"
publish = false

[dependencies]
arg = { version = "=0.4.6", features = ["std"] }
async-std = "=1.13.2"
futures = "=0.3.34"
