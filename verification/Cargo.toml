[package]
name = "scrut"
version = "0.1.0"
edition = "2021"
publish = false

[dependencies]
anyhow = "1"
clap = { version = "4", features = ["derive"] }
humantime = "2"
rand = "0.8"
regex = "1"
serde = { version = "1", features = ["derive"] }
serde_yaml = "0.9"
shell-escape = "0.1"
strip-ansi-escapes = "0.2"
tempfile = "3"
unicode_categories = "0.1"
