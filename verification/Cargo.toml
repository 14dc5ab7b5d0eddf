[package]
name = "shell"
version = "0.1.0"
edition = "2021"
publish = false

[dependencies]
atty = "0.2"
chrono = "0.4"
fork = "*"
users = "0.11"
whoami = "1"
