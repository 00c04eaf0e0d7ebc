[package]
name = "shmy"
version = "0.1.0"
edition = "2021"
publish = false

[dependencies]
regex = "=1.13.1"
glob = "=0.3.4"
which = "=8.0.6"
colored = "*"
url = "*"
chrono = "*"
