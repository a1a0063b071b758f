[package]
name = "relay_server"
version = "0.1.0"
edition = "2021"
publish = false

[dependencies]
chrono = "*"
ethsign = "*"
governor = "*"
rand = "*"
sha2 = "*"
sha3 = "*"
