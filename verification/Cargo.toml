[package]
name = "clantool"
version = "0.1.0"
edition = "2021"
publish = false

[dependencies]
json = "*"
rand = "0.8"
chrono = "0.4"
mysql = "*"
