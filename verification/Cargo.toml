[package]
name = "dmt"
version = "0.1.0"
edition = "2021"
publish = false

[dependencies]
csv = "*"
glob = "*"
serde = { version = "*", features = ["derive"] }
serde_yaml = "*"
tera = "*"
