[package]
name = "ocfshell"
version = "0.1.0"
edition = "2021"
publish = false

[dependencies]
sha2 = "0.10"
hex = "0.4"
serde = { version = "1", features = ["derive"] }
serde_json = "1"
walkdir = "2"
rustyline = "*"
dirs = "*"
signal-hook = "0.3"
