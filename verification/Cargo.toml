[package]
name = "probe_rs"
version = "0.1.0"
edition = "2021"
publish = false

[dependencies]
ihex = "=3.0.0"
goblin = "=0.10.7"
serde = { version = "=1.0.229", features = ["derive"] }
serde_yaml = "=0.9.34"
dirs = "*"
