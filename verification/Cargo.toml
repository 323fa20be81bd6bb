[package]
name = "cp2md"
version = "0.1.0"
edition = "2021"
publish = false

[dependencies]
chrono = "*"
lexopt = "*"
serde = "*"
serde_json = "*"
walkdir = "*"
